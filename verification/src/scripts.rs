//! Script runner: discovery of executable scripts, inline metadata, and the
//! strict JSON output contract a script must satisfy.

use vstd::prelude::*;

verus! {

/// An action attached to a script result item.
#[derive(Clone, Debug)]
pub struct ScriptAction {
    pub action_type: ActionType,
    pub value: String,
}

/// What activating a script item does.
#[derive(Clone, Copy, Debug, PartialEq, Eq, Structural)]
pub enum ActionType {
    Copy,
    Open,
    Run,
}

/// Visual urgency of a script result item.
#[derive(Clone, Copy, Debug, PartialEq, Eq, Structural)]
pub enum Urgency {
    Low,
    Normal,
    Critical,
}

/// The urgency assumed when a script item does not name one.
pub fn default_urgency() -> (r: Urgency)
    ensures
        r == Urgency::Normal,
{
    Urgency::Normal
}

/// One result item emitted by a script.
#[derive(Clone, Debug)]
pub struct ScriptItem {
    pub title: String,
    pub subtitle: Option<String>,
    pub icon: Option<String>,
    pub action: Option<ScriptAction>,
    pub badge: Option<String>,
    pub urgency: Urgency,
}

/// The complete output contract of a script invocation.
#[derive(Clone, Debug)]
pub struct ScriptOutput {
    pub items: Vec<ScriptItem>,
}

/// A discovered script: the file stem is the dispatch keyword.
#[derive(Clone, Debug)]
pub struct ScriptEntry {
    pub keyword: String,
    pub name: Option<String>,
    pub description: Option<String>,
    pub icon: Option<String>,
    pub path: String,
}


/// A parsed JSON value; numbers are kept as raw text, since the output
/// contract never reads one.
pub enum Json {
    Null,
    Bool(bool),
    Num(Vec<char>),
    Str(Vec<char>),
    Arr(Vec<Json>),
    Obj(Vec<(Vec<char>, Json)>),
}

/// The value of the last field named `key`, as a JSON object with repeated
/// names reads: later occurrences win.
pub open spec fn spec_get_field(fields: Seq<(Vec<char>, Json)>, key: Seq<char>) -> Option<Json>
    decreases fields.len(),
{
    if fields.len() == 0 {
        None
    } else if fields.last().0@ == key {
        Some(fields.last().1)
    } else {
        spec_get_field(fields.drop_last(), key)
    }
}

/// Whether an action object is well-formed: a `type` of `copy`, `open` or
/// `run`, and a string `value`, both required.
pub open spec fn spec_action_valid(fields: Seq<(Vec<char>, Json)>) -> bool {
    &&& (match spec_get_field(fields, "type"@) {
        Some(Json::Str(s)) => s@ == "copy"@ || s@ == "open"@ || s@ == "run"@,
        _ => false,
    })
    &&& (match spec_get_field(fields, "value"@) {
        Some(Json::Str(_)) => true,
        _ => false,
    })
}

/// `a` is the action an action object describes.
pub open spec fn spec_action_ok(fields: Seq<(Vec<char>, Json)>, a: ScriptAction) -> bool {
    &&& (match spec_get_field(fields, "type"@) {
        Some(Json::Str(s)) => (s@ == "copy"@ && a.action_type == ActionType::Copy) || (s@
            == "open"@ && a.action_type == ActionType::Open) || (s@ == "run"@ && a.action_type
            == ActionType::Run),
        _ => false,
    })
    &&& (match spec_get_field(fields, "value"@) {
        Some(Json::Str(s)) => a.value@ == s@,
        _ => false,
    })
}

/// An optional string field: absent or null means none; any non-string,
/// non-null value is a contract violation.
pub open spec fn spec_opt_str_valid(fields: Seq<(Vec<char>, Json)>, key: Seq<char>) -> bool {
    match spec_get_field(fields, key) {
        None => true,
        Some(Json::Null) => true,
        Some(Json::Str(_)) => true,
        Some(_) => false,
    }
}

pub open spec fn spec_opt_str_ok(
    fields: Seq<(Vec<char>, Json)>,
    key: Seq<char>,
    v: Option<String>,
) -> bool {
    match spec_get_field(fields, key) {
        None => v is None,
        Some(Json::Null) => v is None,
        Some(Json::Str(s)) => v is Some && v->0@ == s@,
        Some(_) => false,
    }
}

/// Whether one item object satisfies the output contract: a string
/// `title` is required; `subtitle`, `icon` and `badge` are optional
/// strings; `action`, when present and not null, must be a well-formed
/// action object; `urgency`, when present, must be one of the three
/// levels.
pub open spec fn spec_item_valid(j: Json) -> bool {
    &&& j is Obj
    &&& (match spec_get_field(j->Obj_0@, "title"@) {
        Some(Json::Str(_)) => true,
        _ => false,
    })
    &&& spec_opt_str_valid(j->Obj_0@, "subtitle"@)
    &&& spec_opt_str_valid(j->Obj_0@, "icon"@)
    &&& spec_opt_str_valid(j->Obj_0@, "badge"@)
    &&& (match spec_get_field(j->Obj_0@, "action"@) {
        None => true,
        Some(Json::Null) => true,
        Some(Json::Obj(af)) => spec_action_valid(af@),
        Some(_) => false,
    })
    &&& (match spec_get_field(j->Obj_0@, "urgency"@) {
        None => true,
        Some(Json::Str(s)) => s@ == "low"@ || s@ == "normal"@ || s@ == "critical"@,
        Some(_) => false,
    })
}

/// `item` is exactly the item the object describes; a missing `action` or
/// `badge` stays empty, and a missing `urgency` defaults to normal.
pub open spec fn spec_item_ok(j: Json, item: ScriptItem) -> bool {
    &&& j is Obj
    &&& (match spec_get_field(j->Obj_0@, "title"@) {
        Some(Json::Str(s)) => item.title@ == s@,
        _ => false,
    })
    &&& spec_opt_str_ok(j->Obj_0@, "subtitle"@, item.subtitle)
    &&& spec_opt_str_ok(j->Obj_0@, "icon"@, item.icon)
    &&& spec_opt_str_ok(j->Obj_0@, "badge"@, item.badge)
    &&& (match spec_get_field(j->Obj_0@, "action"@) {
        None => item.action is None,
        Some(Json::Null) => item.action is None,
        Some(Json::Obj(af)) => item.action is Some && spec_action_ok(af@, item.action->0),
        Some(_) => false,
    })
    &&& (match spec_get_field(j->Obj_0@, "urgency"@) {
        None => item.urgency == Urgency::Normal,
        Some(Json::Str(s)) => (s@ == "low"@ && item.urgency == Urgency::Low) || (s@ == "normal"@
            && item.urgency == Urgency::Normal) || (s@ == "critical"@ && item.urgency
            == Urgency::Critical),
        _ => false,
    })
}

/// Whether a parsed value satisfies the whole output contract: an object
/// whose `items` field is an array of valid items.
pub open spec fn spec_output_valid(j: Json) -> bool {
    &&& j is Obj
    &&& (match spec_get_field(j->Obj_0@, "items"@) {
        Some(Json::Arr(a)) => forall|k: int| 0 <= k < a@.len() ==> spec_item_valid(#[trigger] a@[k]),
        _ => false,
    })
}

/// `out` is exactly the output the parsed value describes.
pub open spec fn spec_output_ok(j: Json, out: ScriptOutput) -> bool {
    &&& j is Obj
    &&& (match spec_get_field(j->Obj_0@, "items"@) {
        Some(Json::Arr(a)) => out.items@.len() == a@.len() && forall|k: int|
            0 <= k < a@.len() ==> spec_item_ok(a@[k], #[trigger] out.items@[k]),
        _ => false,
    })
}

/// Looks a field up by name; with repeated names the last wins.
fn get_field<'a>(fields: &'a Vec<(Vec<char>, Json)>, key: &[char]) -> (r: Option<&'a Json>)
    ensures
        match r {
            Some(j) => spec_get_field(fields@, key@) == Some(*j),
            None => spec_get_field(fields@, key@) is None,
        },
{
    let ghost n = fields@.len() as int;
    let mut i: usize = fields.len();
    proof {
        assert(fields@.subrange(0, n) =~= fields@);
    }
    while i > 0
        invariant
            0 <= i <= fields@.len(),
            n == fields@.len(),
            spec_get_field(fields@, key@) == spec_get_field(fields@.subrange(0, i as int), key@),
        decreases i,
    {
        let fc = crate::text::sub_chars(fields[i - 1].0.as_slice(), 0, fields[i - 1].0.len());
        proof {
            assert(fc@ =~= fields@[i - 1].0@);
            assert(fields@.subrange(0, i as int).last() == fields@[i - 1]);
            assert(fields@.subrange(0, i as int).drop_last() =~= fields@.subrange(0, i as int - 1));
        }
        if crate::text::eq_chars(fc.as_slice(), key) {
            return Some(&fields[i - 1].1);
        }
        i = i - 1;
    }
    None
}

/// Extracts an action from its object.
fn action_from_fields(fields: &Vec<(Vec<char>, Json)>) -> (r: Result<ScriptAction, ()>)
    ensures
        r is Ok <==> spec_action_valid(fields@),
        r is Ok ==> spec_action_ok(fields@, r->Ok_0),
{
    let ty = match get_field(fields, crate::text::chars_of("type").as_slice()) {
        Some(Json::Str(s)) => {
            if crate::text::eq_chars(s.as_slice(), crate::text::chars_of("copy").as_slice()) {
                ActionType::Copy
            } else if crate::text::eq_chars(
                s.as_slice(),
                crate::text::chars_of("open").as_slice(),
            ) {
                ActionType::Open
            } else if crate::text::eq_chars(
                s.as_slice(),
                crate::text::chars_of("run").as_slice(),
            ) {
                ActionType::Run
            } else {
                return Err(());
            }
        },
        _ => {
            return Err(());
        },
    };
    let value = match get_field(fields, crate::text::chars_of("value").as_slice()) {
        Some(Json::Str(s)) => crate::text::string_from_chars(s.as_slice()),
        _ => {
            return Err(());
        },
    };
    Ok(ScriptAction { action_type: ty, value })
}

/// Extracts an optional string field.
fn opt_str_from_fields(fields: &Vec<(Vec<char>, Json)>, key: &[char]) -> (r: Result<
    Option<String>,
    (),
>)
    ensures
        r is Ok <==> spec_opt_str_valid(fields@, key@),
        r is Ok ==> spec_opt_str_ok(fields@, key@, r->Ok_0),
{
    match get_field(fields, key) {
        None => Ok(None),
        Some(Json::Null) => Ok(None),
        Some(Json::Str(s)) => Ok(Some(crate::text::string_from_chars(s.as_slice()))),
        Some(_) => Err(()),
    }
}

/// Extracts one result item from its object, applying the documented
/// defaults: no action, no badge, normal urgency.
pub fn item_from_json(j: &Json) -> (r: Result<ScriptItem, ()>)
    ensures
        r is Ok <==> spec_item_valid(*j),
        r is Ok ==> spec_item_ok(*j, r->Ok_0),
{
    let fields = match j {
        Json::Obj(fields) => fields,
        _ => {
            return Err(());
        },
    };
    let title = match get_field(fields, crate::text::chars_of("title").as_slice()) {
        Some(Json::Str(s)) => crate::text::string_from_chars(s.as_slice()),
        _ => {
            return Err(());
        },
    };
    let subtitle = match opt_str_from_fields(fields, crate::text::chars_of("subtitle").as_slice()) {
        Ok(v) => v,
        Err(_) => {
            return Err(());
        },
    };
    let icon = match opt_str_from_fields(fields, crate::text::chars_of("icon").as_slice()) {
        Ok(v) => v,
        Err(_) => {
            return Err(());
        },
    };
    let badge = match opt_str_from_fields(fields, crate::text::chars_of("badge").as_slice()) {
        Ok(v) => v,
        Err(_) => {
            return Err(());
        },
    };
    let action: Option<ScriptAction> = match get_field(
        fields,
        crate::text::chars_of("action").as_slice(),
    ) {
        None => None,
        Some(Json::Null) => None,
        Some(Json::Obj(af)) => {
            match action_from_fields(af) {
                Ok(a) => Some(a),
                Err(_) => {
                    return Err(());
                },
            }
        },
        Some(_) => {
            return Err(());
        },
    };
    let urgency: Urgency = match get_field(fields, crate::text::chars_of("urgency").as_slice()) {
        None => Urgency::Normal,
        Some(Json::Str(s)) => {
            if crate::text::eq_chars(s.as_slice(), crate::text::chars_of("low").as_slice()) {
                Urgency::Low
            } else if crate::text::eq_chars(
                s.as_slice(),
                crate::text::chars_of("normal").as_slice(),
            ) {
                Urgency::Normal
            } else if crate::text::eq_chars(
                s.as_slice(),
                crate::text::chars_of("critical").as_slice(),
            ) {
                Urgency::Critical
            } else {
                return Err(());
            }
        },
        Some(_) => {
            return Err(());
        },
    };
    Ok(ScriptItem { title, subtitle, icon, action, badge, urgency })
}

/// Extracts the whole output from a parsed value.
pub fn output_from_json(j: &Json) -> (r: Result<ScriptOutput, ()>)
    ensures
        r is Ok <==> spec_output_valid(*j),
        r is Ok ==> spec_output_ok(*j, r->Ok_0),
{
    let fields = match j {
        Json::Obj(fields) => fields,
        _ => {
            return Err(());
        },
    };
    let arr = match get_field(fields, crate::text::chars_of("items").as_slice()) {
        Some(Json::Arr(a)) => a,
        _ => {
            return Err(());
        },
    };
    proof {
        assert(*j is Obj);
        assert(spec_get_field(fields@, "items"@) == Some(Json::Arr(*arr)));
    }
    let mut items: Vec<ScriptItem> = Vec::new();
    let mut i: usize = 0;
    while i < arr.len()
        invariant
            *j is Obj,
            (*j)->Obj_0 == *fields,
            spec_get_field(fields@, "items"@) == Some(Json::Arr(*arr)),
            0 <= i <= arr@.len(),
            items@.len() == i,
            forall|k: int| 0 <= k < i ==> spec_item_valid(#[trigger] arr@[k]),
            forall|k: int| 0 <= k < i ==> spec_item_ok(arr@[k], #[trigger] items@[k]),
        decreases arr@.len() - i,
    {
        match item_from_json(&arr[i]) {
            Ok(item) => {
                items.push(item);
            },
            Err(_) => {
                proof {
                    assert(!spec_item_valid(arr@[i as int]));
                    if spec_output_valid(*j) {
                        let g = spec_get_field((*j)->Obj_0@, "items"@);
                        assert(g == Some(Json::Arr(*arr)));
                        assert(g->0->Arr_0 == *arr);
                        assert(spec_item_valid(g->0->Arr_0@[i as int]));
                        assert(false);
                    }
                }
                return Err(());
            },
        }
        i = i + 1;
    }
    Ok(ScriptOutput { items })
}


/// Relies on `char::from_u32`: `Some` exactly for valid scalar values —
/// everything but surrogates and code points past the maximum — and the
/// returned character has that scalar value.
#[verifier::external_body]
fn char_from_u32(x: u32) -> (r: Option<char>)
    ensures
        r is Some <==> (x < 0xD800 || (0xE000 <= x && x <= 0x10FFFF)),
        r is Some ==> (r->0 as u32) == x,
{
    char::from_u32(x)
}

fn hex_val(c: char) -> (r: Option<u32>)
    ensures
        r == spec_hex_val(c),
        r is Some ==> r->0 < 16,
{
    if c >= '0' && c <= '9' {
        Some((c as u32) - ('0' as u32))
    } else if c >= 'a' && c <= 'f' {
        Some((c as u32) - ('a' as u32) + 10)
    } else if c >= 'A' && c <= 'F' {
        Some((c as u32) - ('A' as u32) + 10)
    } else {
        None
    }
}

fn skip_ws(s: &[char], i: usize) -> (r: usize)
    requires
        i <= s@.len(),
    ensures
        i <= r <= s@.len(),
        r as int == spec_skip_ws(s@, i as int),
{
    let mut j = i;
    while j < s.len() && crate::text::is_space(s[j])
        invariant
            i <= j <= s@.len(),
            spec_skip_ws(s@, i as int) == spec_skip_ws(s@, j as int),
        decreases s@.len() - j,
    {
        j = j + 1;
    }
    j
}

/// Reads a four-digit hexadecimal escape starting at `i`.
fn read_hex4(s: &[char], i: usize) -> (r: Option<(u32, usize)>)
    requires
        i <= s@.len(),
    ensures
        (match r {
            Some(p) => spec_read_hex4(s@, i as int) == Some((p.0, p.1 as int)) && i <= p.1
                <= s@.len() && p.0 < 0x10000,
            None => spec_read_hex4(s@, i as int) is None,
        }),
{
    let n = s.len();
    if n - i < 4 {
        return None;
    }
    let a = match hex_val(s[i]) {
        Some(h) => h,
        None => {
            return None;
        },
    };
    let b = match hex_val(s[i + 1]) {
        Some(h) => h,
        None => {
            return None;
        },
    };
    let c = match hex_val(s[i + 2]) {
        Some(h) => h,
        None => {
            return None;
        },
    };
    let d = match hex_val(s[i + 3]) {
        Some(h) => h,
        None => {
            return None;
        },
    };
    Some((((a * 16 + b) * 16 + c) * 16 + d, i + 4))
}

/// Reads a JSON string starting at the opening quote at `i`; returns the
/// decoded characters and the position after the closing quote.  Escape
/// sequences follow the JSON grammar, including surrogate pairs.
fn parse_json_string(s: &[char], i: usize) -> (r: Option<(Vec<char>, usize)>)
    requires
        i < s@.len(),
    ensures
        (match r {
            Some(p) => spec_parse_jstring(s@, i as int) == Some((p.0@, p.1 as int)) && i < p.1
                <= s@.len(),
            None => spec_parse_jstring(s@, i as int) is None,
        }),
{
    if s[i] != '"' {
        return None;
    }
    let mut out: Vec<char> = Vec::new();
    let mut j = i + 1;
    proof {
        assert(out@ =~= Seq::<char>::empty());
    }
    while j < s.len()
        invariant
            i < j <= s@.len(),
            i < s@.len() && s@[i as int] == '"',
            spec_parse_jstring(s@, i as int) == spec_str_rest(s@, j as int, out@),
        decreases s@.len() - j,
    {
        let ghost j0 = j as int;
        let ghost out0 = out@;
        let c = s[j];
        if c == '"' {
            proof {
                assert(spec_str_rest(s@, j0, out0) == Some((out0, j0 + 1)));
            }
            return Some((out, j + 1));
        } else if c == '\\' {
            if j + 1 >= s.len() {
                proof {
                    assert(spec_str_rest(s@, j0, out0) is None);
                }
                return None;
            }
            let e = s[j + 1];
            if e == '"' || e == '\\' || e == '/' {
                out.push(e);
                j = j + 2;
            } else if e == 'b' {
                out.push(8u8 as char);
                j = j + 2;
            } else if e == 'f' {
                out.push(12u8 as char);
                j = j + 2;
            } else if e == 'n' {
                out.push('\n');
                j = j + 2;
            } else if e == 'r' {
                out.push('\r');
                j = j + 2;
            } else if e == 't' {
                out.push('\t');
                j = j + 2;
            } else if e == 'u' {
                match read_hex4(s, j + 2) {
                    Some((u1, p1)) => {
                        if u1 >= 0xD800 && u1 < 0xDC00 {
                            if p1 < s.len() && p1 + 1 < s.len() && s[p1] == '\\' && s[p1 + 1]
                                == 'u' {
                                match read_hex4(s, p1 + 2) {
                                    Some((u2, p2)) => {
                                        if u2 >= 0xDC00 && u2 < 0xE000 {
                                            let cp: u32 = 0x10000 + ((u1 - 0xD800) * 0x400) + (u2
                                                - 0xDC00);
                                            match char_from_u32(cp) {
                                                Some(ch) => {
                                                    proof {
                                                        assert(spec_valid_scalar(cp));
                                                        vstd::utf8::char_u32_cast(ch, ch as u32);
                                                        vstd::utf8::char_u32_cast(
                                                            cp as char,
                                                            (cp as char) as u32,
                                                        );
                                                        assert((cp as char) as u32 == cp);
                                                        assert(ch == cp as char);
                                                    }
                                                    out.push(ch);
                                                    j = p2;
                                                },
                                                None => {
                                                    proof {
                                                        assert(!spec_valid_scalar(cp));
                                                        assert(spec_str_rest(s@, j0, out0)
                                                            is None);
                                                    }
                                                    return None;
                                                },
                                            }
                                        } else {
                                            proof {
                                                assert(spec_str_rest(s@, j0, out0) is None);
                                            }
                                            return None;
                                        }
                                    },
                                    None => {
                                        proof {
                                            assert(spec_str_rest(s@, j0, out0) is None);
                                        }
                                        return None;
                                    },
                                }
                            } else {
                                proof {
                                    assert(spec_str_rest(s@, j0, out0) is None);
                                }
                                return None;
                            }
                        } else {
                            match char_from_u32(u1) {
                                Some(ch) => {
                                    proof {
                                        assert(spec_valid_scalar(u1));
                                        vstd::utf8::char_u32_cast(ch, ch as u32);
                                        vstd::utf8::char_u32_cast(u1 as char, (u1 as char) as u32);
                                        assert((u1 as char) as u32 == u1);
                                        assert(ch == u1 as char);
                                    }
                                    out.push(ch);
                                    j = p1;
                                },
                                None => {
                                    proof {
                                        assert(!spec_valid_scalar(u1));
                                        assert(spec_str_rest(s@, j0, out0) is None);
                                    }
                                    return None;
                                },
                            }
                        }
                    },
                    None => {
                        proof {
                            assert(spec_str_rest(s@, j0, out0) is None);
                        }
                        return None;
                    },
                }
            } else {
                proof {
                    assert(spec_str_rest(s@, j0, out0) is None);
                }
                return None;
            }
        } else {
            out.push(c);
            j = j + 1;
        }
        proof {
            assert(spec_str_rest(s@, j0, out0) == spec_str_rest(s@, j as int, out@));
        }
    }
    proof {
        assert(spec_str_rest(s@, j as int, out@) is None);
    }
    None
}

fn is_num_char(c: char) -> (r: bool)
    ensures
        r == spec_is_num_char(c),
{
    (c >= '0' && c <= '9') || c == '-' || c == '+' || c == '.' || c == 'e' || c == 'E'
}

/// Parses one JSON value starting at `i` (no leading whitespace); returns
/// the value and the position just past it — exactly the value and
/// position of [`spec_parse_value`].
pub fn parse_json_value(s: &[char], i: usize) -> (r: Option<(Json, usize)>)
    requires
        i <= s@.len(),
    ensures
        (match r {
            Some(p) => spec_parse_value(s@, i as int) == Some((jview(p.0), p.1 as int)) && i < p.1
                <= s@.len(),
            None => spec_parse_value(s@, i as int) is None,
        }),
    decreases s@.len() - i, 1int,
{
    if i >= s.len() {
        return None;
    }
    let c = s[i];
    if c == 'n' {
        if s.len() - i >= 4 && s[i + 1] == 'u' && s[i + 2] == 'l' && s[i + 3] == 'l' {
            Some((Json::Null, i + 4))
        } else {
            None
        }
    } else if c == 't' {
        if s.len() - i >= 4 && s[i + 1] == 'r' && s[i + 2] == 'u' && s[i + 3] == 'e' {
            Some((Json::Bool(true), i + 4))
        } else {
            None
        }
    } else if c == 'f' {
        if s.len() - i >= 5 && s[i + 1] == 'a' && s[i + 2] == 'l' && s[i + 3] == 's' && s[i + 4]
            == 'e' {
            Some((Json::Bool(false), i + 5))
        } else {
            None
        }
    } else if c == '"' {
        match parse_json_string(s, i) {
            Some((v, p)) => Some((Json::Str(v), p)),
            None => None,
        }
    } else if c == '-' || (c >= '0' && c <= '9') {
        let mut j = i + 1;
        let mut raw: Vec<char> = Vec::new();
        raw.push(c);
        proof {
            assert(raw@ =~= seq![c]);
        }
        while j < s.len() && is_num_char(s[j])
            invariant
                i < j <= s@.len(),
                spec_num_rest(s@, i as int + 1, seq![c]) == spec_num_rest(s@, j as int, raw@),
            decreases s@.len() - j,
        {
            raw.push(s[j]);
            j = j + 1;
        }
        proof {
            assert(spec_num_rest(s@, j as int, raw@) == (raw@, j as int));
        }
        Some((Json::Num(raw), j))
    } else if c == '[' {
        parse_json_array(s, i)
    } else if c == '{' {
        parse_json_object(s, i)
    } else {
        None
    }
}

/// Parses a JSON array starting at its `[`.
fn parse_json_array(s: &[char], i: usize) -> (r: Option<(Json, usize)>)
    requires
        i < s@.len(),
        s@[i as int] == '[',
    ensures
        (match r {
            Some(p) => spec_parse_array(s@, i as int) == Some((jview(p.0), p.1 as int)) && i < p.1
                <= s@.len(),
            None => spec_parse_array(s@, i as int) is None,
        }),
    decreases s@.len() - i, 0int,
{
    let n0 = s.len();
    proof {
        assert(i < n0);
    }
    let mut items: Vec<Json> = Vec::new();
    let mut j = skip_ws(s, i + 1);
    if j < s.len() && s[j] == ']' {
        proof {
            assert(jview_list(items@) =~= Seq::<JsonV>::empty());
            assert(jview(Json::Arr(items)) == JsonV::ArrV(Seq::<JsonV>::empty()));
        }
        return Some((Json::Arr(items), j + 1));
    }
    proof {
        assert(jview_list(items@) =~= Seq::<JsonV>::empty());
        assert(spec_parse_array(s@, i as int) == spec_arr_items(
            s@,
            j as int,
            jview_list(items@),
        ));
    }
    loop
        invariant
            i < j <= s@.len(),
            spec_parse_array(s@, i as int) == spec_arr_items(s@, j as int, jview_list(items@)),
        decreases s@.len() - j,
    {
        let ghost j0 = j as int;
        let ghost acc0 = jview_list(items@);
        match parse_json_value(s, j) {
            Some((v, p)) => {
                let ghost prev = items@;
                items.push(v);
                proof {
                    assert(items@.drop_last() =~= prev);
                    assert(items@.last() == v);
                    assert(jview_list(items@) == acc0.push(jview(v)));
                }
                let q = skip_ws(s, p);
                if q < s.len() && s[q] == ',' {
                    let q2 = skip_ws(s, q + 1);
                    if q2 <= j {
                        proof {
                            assert(spec_arr_items(s@, j0, acc0) is None);
                        }
                        return None;
                    }
                    j = q2;
                    proof {
                        assert(spec_arr_items(s@, j0, acc0) == spec_arr_items(
                            s@,
                            j as int,
                            jview_list(items@),
                        ));
                    }
                } else if q < s.len() && s[q] == ']' {
                    proof {
                        assert(spec_arr_items(s@, j0, acc0) == Some(
                            (JsonV::ArrV(acc0.push(jview(v))), q + 1),
                        ));
                        assert(jview(Json::Arr(items)) == JsonV::ArrV(jview_list(items@)));
                    }
                    return Some((Json::Arr(items), q + 1));
                } else {
                    proof {
                        assert(spec_arr_items(s@, j0, acc0) is None);
                    }
                    return None;
                }
            },
            None => {
                proof {
                    assert(spec_arr_items(s@, j0, acc0) is None);
                }
                return None;
            },
        }
    }
}

/// Parses a JSON object starting at its `{`.
fn parse_json_object(s: &[char], i: usize) -> (r: Option<(Json, usize)>)
    requires
        i < s@.len(),
        s@[i as int] == '{',
    ensures
        (match r {
            Some(p) => spec_parse_object(s@, i as int) == Some((jview(p.0), p.1 as int)) && i
                < p.1 <= s@.len(),
            None => spec_parse_object(s@, i as int) is None,
        }),
    decreases s@.len() - i, 0int,
{
    let n0 = s.len();
    proof {
        assert(i < n0);
    }
    let mut fields: Vec<(Vec<char>, Json)> = Vec::new();
    let mut j = skip_ws(s, i + 1);
    if j < s.len() && s[j] == '}' {
        proof {
            assert(jview_fields(fields@) =~= Seq::<(Seq<char>, JsonV)>::empty());
            assert(jview(Json::Obj(fields)) == JsonV::ObjV(Seq::<(Seq<char>, JsonV)>::empty()));
        }
        return Some((Json::Obj(fields), j + 1));
    }
    proof {
        assert(jview_fields(fields@) =~= Seq::<(Seq<char>, JsonV)>::empty());
        assert(spec_parse_object(s@, i as int) == spec_obj_fields(
            s@,
            j as int,
            jview_fields(fields@),
        ));
    }
    loop
        invariant
            i < j <= s@.len(),
            spec_parse_object(s@, i as int) == spec_obj_fields(s@, j as int, jview_fields(fields@)),
        decreases s@.len() - j,
    {
        let ghost j0 = j as int;
        let ghost acc0 = jview_fields(fields@);
        if j >= s.len() {
            proof {
                assert(spec_obj_fields(s@, j0, acc0) is None);
            }
            return None;
        }
        match parse_json_string(s, j) {
            Some((key, p)) => {
                let q = skip_ws(s, p);
                if !(q < s.len() && s[q] == ':') {
                    proof {
                        assert(spec_obj_fields(s@, j0, acc0) is None);
                    }
                    return None;
                }
                let vstart = skip_ws(s, q + 1);
                match parse_json_value(s, vstart) {
                    Some((v, p2)) => {
                        let ghost kv = key@;
                        let ghost prevf = fields@;
                        fields.push((key, v));
                        proof {
                            assert(fields@.drop_last() =~= prevf);
                            assert(fields@.last().0@ == kv);
                            assert(fields@.last().1 == v);
                            assert(jview_fields(fields@) == acc0.push((kv, jview(v))));
                        }
                        let q2 = skip_ws(s, p2);
                        if q2 < s.len() && s[q2] == ',' {
                            let q3 = skip_ws(s, q2 + 1);
                            if q3 <= j {
                                proof {
                                    assert(spec_obj_fields(s@, j0, acc0) is None);
                                }
                                return None;
                            }
                            j = q3;
                            proof {
                                assert(spec_obj_fields(s@, j0, acc0) == spec_obj_fields(
                                    s@,
                                    j as int,
                                    jview_fields(fields@),
                                ));
                            }
                        } else if q2 < s.len() && s[q2] == '}' {
                            proof {
                                assert(spec_obj_fields(s@, j0, acc0) == Some(
                                    (JsonV::ObjV(acc0.push((kv, jview(v)))), q2 + 1),
                                ));
                                assert(jview(Json::Obj(fields)) == JsonV::ObjV(
                                    jview_fields(fields@),
                                ));
                            }
                            return Some((Json::Obj(fields), q2 + 1));
                        } else {
                            proof {
                                assert(spec_obj_fields(s@, j0, acc0) is None);
                            }
                            return None;
                        }
                    },
                    None => {
                        proof {
                            assert(spec_obj_fields(s@, j0, acc0) is None);
                        }
                        return None;
                    },
                }
            },
            None => {
                proof {
                    assert(spec_obj_fields(s@, j0, acc0) is None);
                }
                return None;
            },
        }
    }
}

/// Parses a script's standard output against the output contract: the
/// text must hold exactly one JSON value, an object whose `items` array
/// holds well-formed items.  Succeeds exactly when the text parses to a
/// value satisfying the contract, and then returns the output that value
/// describes.
pub fn parse_script_output(text: &str) -> (r: Result<ScriptOutput, ()>)
    ensures
        r is Ok <==> (spec_parse_text(text@) is Some && spec_output_valid_v(
            spec_parse_text(text@)->0,
        )),
        r is Ok ==> spec_output_ok_v(spec_parse_text(text@)->0, r->Ok_0),
{
    let cs = crate::text::chars_of(text);
    let start = skip_ws(cs.as_slice(), 0);
    match parse_json_value(cs.as_slice(), start) {
        Some((j, p)) => {
            let p2 = skip_ws(cs.as_slice(), p);
            if p2 != cs.len() {
                proof {
                    assert(spec_parse_text(text@) is None);
                }
                return Err(());
            }
            proof {
                assert(spec_parse_text(text@) == Some(jview(j)));
            }
            match output_from_json(&j) {
                Ok(out) => {
                    proof {
                        lemma_output_transfer(j, out);
                        assert(spec_output_valid_v(jview(j)) && spec_output_ok_v(jview(j), out));
                    }
                    Ok(out)
                },
                Err(_) => {
                    proof {
                        lemma_output_transfer(j, vstd::pervasive::arbitrary());
                        assert(!spec_output_valid_v(jview(j)));
                    }
                    Err(())
                },
            }
        },
        None => {
            proof {
                assert(spec_parse_text(text@) is None);
            }
            Err(())
        },
    }
}

/// How one header line updates the metadata triple/// How one header line updates the metadata triple (name, description,
/// icon): a `#` or `//` comment containing `vanta:key=value` records the
/// value under a recognized key.
pub open spec fn spec_meta_apply(
    st: (Option<Seq<char>>, Option<Seq<char>>, Option<Seq<char>>),
    line: Seq<char>,
) -> (Option<Seq<char>>, Option<Seq<char>>, Option<Seq<char>>) {
    let t = crate::text::spec_trim(line);
    if t.len() >= 1 && t[0] == '#' {
        spec_meta_content(st, crate::text::spec_trim(t.skip(1)))
    } else if t.len() >= 2 && t[0] == '/' && t[1] == '/' {
        spec_meta_content(st, crate::text::spec_trim(t.skip(2)))
    } else {
        st
    }
}

pub open spec fn spec_meta_content(
    st: (Option<Seq<char>>, Option<Seq<char>>, Option<Seq<char>>),
    content: Seq<char>,
) -> (Option<Seq<char>>, Option<Seq<char>>, Option<Seq<char>>) {
    if crate::text::spec_starts_with(content, "vanta:"@) {
        let rest = content.skip(6);
        if exists|i: int| 0 <= i < rest.len() && #[trigger] rest[i] == '=' {
            let eq = crate::scanner::spec_first_eq(rest);
            let key = crate::text::spec_trim(rest.subrange(0, eq));
            let value = crate::text::spec_trim(rest.subrange(eq + 1, rest.len() as int));
            if key == "name"@ {
                (Some(value), st.1, st.2)
            } else if key == "description"@ {
                (st.0, Some(value), st.2)
            } else if key == "icon"@ {
                (st.0, st.1, Some(value))
            } else {
                st
            }
        } else {
            st
        }
    } else {
        st
    }
}

/// The metadata triple after the first `n` header lines.
pub open spec fn spec_meta_fold(lines: Seq<Seq<char>>, n: int) -> (
    Option<Seq<char>>,
    Option<Seq<char>>,
    Option<Seq<char>>,
)
    decreases n,
{
    if n <= 0 {
        (None, None, None)
    } else {
        spec_meta_apply(spec_meta_fold(lines, n - 1), lines[n - 1])
    }
}

/// The metadata a script's header text carries: the first five lines are
/// scanned for `# vanta:key=value` or `// vanta:key=value` comments with
/// the keys `name`, `description` and `icon`.
pub open spec fn spec_script_meta(head: Seq<char>) -> (
    Option<Seq<char>>,
    Option<Seq<char>>,
    Option<Seq<char>>,
) {
    let lines = crate::text::spec_split(head, '\n');
    spec_meta_fold(lines, if lines.len() <= 5 {
        lines.len() as int
    } else {
        5int
    })
}

fn opt_chars_to_string2(o: Option<Vec<char>>) -> (r: Option<String>)
    ensures
        (match o {
            Some(v) => r is Some && r->0@ == v@,
            None => r is None,
        }),
{
    match o {
        Some(v) => Some(crate::text::string_from_chars(v.as_slice())),
        None => None,
    }
}

/// Applies one header line to the metadata triple.
fn meta_apply(
    st: (Option<Vec<char>>, Option<Vec<char>>, Option<Vec<char>>),
    line: &[char],
) -> (r: (Option<Vec<char>>, Option<Vec<char>>, Option<Vec<char>>))
    ensures
        spec_meta_view(r) == spec_meta_apply(spec_meta_view(st), line@),
{
    let t = crate::text::trim_chars(line);
    let content: Vec<char> = if t.len() >= 1 && t[0] == '#' {
        let rest = crate::text::sub_chars(t.as_slice(), 1, t.len());
        proof {
            assert(rest@ =~= t@.skip(1));
        }
        crate::text::trim_chars(rest.as_slice())
    } else if t.len() >= 2 && t[0] == '/' && t[1] == '/' {
        let rest = crate::text::sub_chars(t.as_slice(), 2, t.len());
        proof {
            assert(rest@ =~= t@.skip(2));
        }
        crate::text::trim_chars(rest.as_slice())
    } else {
        return st;
    };
    let vp = crate::text::chars_of("vanta:");
    proof {
        reveal_strlit("vanta:");
    }
    if !crate::text::starts_with_chars(content.as_slice(), vp.as_slice()) {
        return st;
    }
    let rest = crate::text::sub_chars(content.as_slice(), 6, content.len());
    proof {
        assert(rest@ =~= content@.skip(6));
    }
    match crate::text::find_char(rest.as_slice(), '=') {
        Some(eq) => {
            proof {
                let w = crate::scanner::spec_first_eq(rest@);
                assert(0 <= w < rest@.len() && rest@[w] == '=' && (forall|k: int|
                    0 <= k < w ==> rest@[k] != '=')) by {
                    assert(0 <= eq < rest@.len() && rest@[eq as int] == '=' && (forall|k: int|
                        0 <= k < eq ==> rest@[k] != '='));
                }
                if w != eq {
                    if w < eq {
                        assert(rest@[w] != '=');
                    } else {
                        assert(rest@[eq as int] != '=');
                    }
                    assert(false);
                }
            }
            let key = crate::text::trim_chars(
                crate::text::sub_chars(rest.as_slice(), 0, eq).as_slice(),
            );
            let value = crate::text::trim_chars(
                crate::text::sub_chars(rest.as_slice(), eq + 1, rest.len()).as_slice(),
            );
            if crate::text::eq_chars(key.as_slice(), crate::text::chars_of("name").as_slice()) {
                (Some(value), st.1, st.2)
            } else if crate::text::eq_chars(
                key.as_slice(),
                crate::text::chars_of("description").as_slice(),
            ) {
                (st.0, Some(value), st.2)
            } else if crate::text::eq_chars(
                key.as_slice(),
                crate::text::chars_of("icon").as_slice(),
            ) {
                (st.0, st.1, Some(value))
            } else {
                st
            }
        },
        None => st,
    }
}

pub open spec fn spec_meta_view(st: (Option<Vec<char>>, Option<Vec<char>>, Option<Vec<char>>)) -> (
    Option<Seq<char>>,
    Option<Seq<char>>,
    Option<Seq<char>>,
) {
    (
        match st.0 {
            Some(v) => Some(v@),
            None => None,
        },
        match st.1 {
            Some(v) => Some(v@),
            None => None,
        },
        match st.2 {
            Some(v) => Some(v@),
            None => None,
        },
    )
}

/// Reads the optional name, description and icon from the first lines of
/// a script file.
pub fn parse_script_metadata(head: &str) -> (r: (Option<String>, Option<String>, Option<String>))
    ensures
        ({
            let m = spec_script_meta(head@);
            &&& (match m.0 {
                Some(v) => r.0 is Some && r.0->0@ == v,
                None => r.0 is None,
            })
            &&& (match m.1 {
                Some(v) => r.1 is Some && r.1->0@ == v,
                None => r.1 is None,
            })
            &&& (match m.2 {
                Some(v) => r.2 is Some && r.2->0@ == v,
                None => r.2 is None,
            })
        }),
{
    let hc = crate::text::chars_of(head);
    let lines = crate::text::split_chars(hc.as_slice(), '\n');
    let ghost lviews = lines@.map_values(|x: Vec<char>| x@);
    let limit: usize = if lines.len() <= 5 {
        lines.len()
    } else {
        5
    };
    let mut st: (Option<Vec<char>>, Option<Vec<char>>, Option<Vec<char>>) = (None, None, None);
    let mut i: usize = 0;
    while i < limit
        invariant
            0 <= i <= limit <= lines@.len(),
            lviews == lines@.map_values(|x: Vec<char>| x@),
            spec_meta_view(st) == spec_meta_fold(lviews, i as int),
        decreases limit - i,
    {
        st = meta_apply(st, lines[i].as_slice());
        proof {
            assert(lviews[i as int] == lines@[i as int]@);
        }
        i = i + 1;
    }
    proof {
        assert(lviews == crate::text::spec_split(head@, '\n'));
    }
    (opt_chars_to_string2(st.0), opt_chars_to_string2(st.1), opt_chars_to_string2(st.2))
}

/// The file stem and path of one executable file found in the scripts
/// directory, with the first lines of its text; listing the directory is
/// I/O and happens outside the crate.
#[derive(Clone, Debug)]
pub struct ScriptSource {
    pub stem: String,
    pub path: String,
    pub head: String,
}

/// `e` is the entry owed for source `f`.
pub open spec fn spec_script_entry_of(f: ScriptSource, e: ScriptEntry) -> bool {
    let m = spec_script_meta(f.head@);
    &&& e.keyword@ == f.stem@
    &&& e.path@ == f.path@
    &&& (match m.0 {
        Some(v) => e.name is Some && e.name->0@ == v,
        None => e.name is None,
    })
    &&& (match m.1 {
        Some(v) => e.description is Some && e.description->0@ == v,
        None => e.description is None,
    })
    &&& (match m.2 {
        Some(v) => e.icon is Some && e.icon->0@ == v,
        None => e.icon is None,
    })
}

/// Source `i` wins its stem: the stem is non-empty and no later-scanned
/// source shares it — on a stem collision the last-scanned file owns the
/// keyword.
pub open spec fn spec_script_kept(files: Seq<ScriptSource>, i: int) -> bool {
    &&& 0 <= i < files.len()
    &&& files[i].stem@.len() > 0
    &&& (forall|j: int| i < j < files.len() ==> (#[trigger] files[j]).stem@ != files[i].stem@)
}

/// How many of the first `n` sources win their stem.
pub open spec fn spec_script_kept_count(files: Seq<ScriptSource>, n: int) -> int
    decreases n,
{
    if n <= 0 {
        0
    } else {
        spec_script_kept_count(files, n - 1) + (if spec_script_kept(files, n - 1) {
            1int
        } else {
            0int
        })
    }
}

proof fn lemma_script_count_nonneg(files: Seq<ScriptSource>, n: int)
    ensures
        spec_script_kept_count(files, n) >= 0,
    decreases n,
{
    if n > 0 {
        lemma_script_count_nonneg(files, n - 1);
    }
}

proof fn lemma_script_count_mono(files: Seq<ScriptSource>, m: int, n: int)
    requires
        m <= n,
    ensures
        spec_script_kept_count(files, m) <= spec_script_kept_count(files, n),
    decreases n - m,
{
    if m < n {
        lemma_script_count_mono(files, m, n - 1);
    }
}

/// Every slot below the kept count is taken by some earlier kept source.
proof fn lemma_script_slot(files: Seq<ScriptSource>, i: int, b: int)
    requires
        0 <= b < spec_script_kept_count(files, i),
    ensures
        exists|a: int|
            0 <= a < i && #[trigger] spec_script_kept(files, a) && spec_script_kept_count(files, a)
                == b,
    decreases i,
{
    lemma_script_count_nonneg(files, i - 1);
    if i > 0 {
        if b < spec_script_kept_count(files, i - 1) {
            lemma_script_slot(files, i - 1, b);
        } else {
            assert(spec_script_kept(files, i - 1) && spec_script_kept_count(files, i - 1) == b);
        }
    }
}

/// `e` is the entry owed for some source that wins its stem.
pub open spec fn spec_scan_sourced(files: Seq<ScriptSource>, e: ScriptEntry) -> bool {
    exists|i: int| #[trigger] spec_script_kept(files, i) && spec_script_entry_of(files[i], e)
}

/// A permutation carries pairwise-distinct keywords over.
proof fn lemma_permutation_distinct_keywords(s: Seq<ScriptEntry>, t: Seq<ScriptEntry>)
    requires
        s.to_multiset() == t.to_multiset(),
        forall|i: int, j: int| 0 <= i < j < s.len() ==> s[i].keyword@ != s[j].keyword@,
    ensures
        forall|i: int, j: int| 0 <= i < j < t.len() ==> t[i].keyword@ != t[j].keyword@,
{
    broadcast use vstd::seq_lib::group_to_multiset_ensures;

    assert forall|i: int, j: int| 0 <= i < j < t.len() implies t[i].keyword@ != t[j].keyword@ by {
        let x = t[i];
        let y = t[j];
        if x.keyword@ == y.keyword@ {
            if x == y {
                let tr = t.remove(i);
                assert(tr.to_multiset() =~= t.to_multiset().remove(x));
                assert(tr[j - 1] == y);
                assert(tr.contains(y));
                assert(tr.to_multiset().count(x) > 0);
                assert(t.to_multiset().count(x) >= 2);
                assert(s.to_multiset().count(x) >= 2);
                assert(s.contains(x));
                let a = choose|a: int| 0 <= a < s.len() && s[a] == x;
                let sr = s.remove(a);
                assert(sr.to_multiset() =~= s.to_multiset().remove(x));
                assert(sr.to_multiset().count(x) > 0);
                assert(sr.contains(x));
                let b = choose|b: int| 0 <= b < sr.len() && sr[b] == x;
                if b < a {
                    assert(s[b] == x);
                    assert(s[b].keyword@ == s[a].keyword@);
                } else {
                    assert(s[b + 1] == x);
                    assert(s[a].keyword@ == s[b + 1].keyword@);
                }
                assert(false);
            } else {
                assert(t.to_multiset().count(x) > 0);
                assert(s.to_multiset().count(x) > 0);
                assert(t.to_multiset().count(y) > 0);
                assert(s.to_multiset().count(y) > 0);
                assert(s.contains(x));
                assert(s.contains(y));
                let a = choose|a: int| 0 <= a < s.len() && s[a] == x;
                let b = choose|b: int| 0 <= b < s.len() && s[b] == y;
                assert(a != b);
                if a < b {
                    assert(s[a].keyword@ == s[b].keyword@);
                } else {
                    assert(s[b].keyword@ == s[a].keyword@);
                }
                assert(false);
            }
        }
    }
}

/// Builds the script snapshot from the listed sources.  A file with an
/// empty stem yields nothing; on a stem collision only the last-scanned
/// file yields an entry, so the keyword is a unique dispatch key; every
/// entry carries its header metadata; the result is sorted by keyword.
#[verifier::rlimit(60)]
pub fn scan_scripts(files: &Vec<ScriptSource>) -> (r: Vec<ScriptEntry>)
    ensures
        forall|i: int, j: int|
            0 <= i < j < r@.len() ==> crate::text::lex_le(r@[i].keyword@, r@[j].keyword@),
        forall|i: int, j: int| 0 <= i < j < r@.len() ==> r@[i].keyword@ != r@[j].keyword@,
        forall|k: int| 0 <= k < r@.len() ==> spec_scan_sourced(files@, #[trigger] r@[k]),
        forall|i: int|
            #[trigger] spec_script_kept(files@, i) ==> exists|k: int|
                0 <= k < r@.len() && spec_script_entry_of(files@[i], #[trigger] r@[k]),
{
    broadcast use vstd::seq_lib::group_to_multiset_ensures;

    let mut entries: Vec<ScriptEntry> = Vec::new();
    let mut i: usize = 0;
    while i < files.len()
        invariant
            0 <= i <= files@.len(),
            entries@.len() == spec_script_kept_count(files@, i as int),
            forall|k: int|
                0 <= k < entries@.len() ==> spec_scan_sourced(files@, #[trigger] entries@[k]),
            forall|a: int|
                0 <= a < i && #[trigger] spec_script_kept(files@, a) ==> 0 <= spec_script_kept_count(
                    files@,
                    a,
                ) < entries@.len() && spec_script_entry_of(
                    files@[a],
                    entries@[spec_script_kept_count(files@, a)],
                ),
        decreases files@.len() - i,
    {
        let f = &files[i];
        proof {
            lemma_script_count_nonneg(files@, i as int);
        }
        let mut kept = !f.stem.as_str().is_empty();
        if kept {
            let sc = crate::text::chars_of(f.stem.as_str());
            let mut j: usize = i + 1;
            while j < files.len()
                invariant
                    i < j <= files@.len(),
                    sc@ == files@[i as int].stem@,
                    kept == (forall|a: int|
                        i < a < j ==> (#[trigger] files@[a]).stem@ != files@[i as int].stem@),
                decreases files@.len() - j,
            {
                let oc = crate::text::chars_of(files[j].stem.as_str());
                if crate::text::eq_chars(oc.as_slice(), sc.as_slice()) {
                    kept = false;
                }
                j = j + 1;
            }
        }
        if kept {
            proof {
                assert(spec_script_kept(files@, i as int));
            }
            let (name, description, icon) = parse_script_metadata(f.head.as_str());
            let e = ScriptEntry {
                keyword: f.stem.clone(),
                name,
                description,
                icon,
                path: f.path.clone(),
            };
            let ghost prev = entries@;
            entries.push(e);
            proof {
                assert(spec_script_entry_of(files@[i as int], e));
                assert(spec_scan_sourced(files@, e));
                assert(forall|k: int| 0 <= k < prev.len() ==> entries@[k] == prev[k]);
                assert(entries@[prev.len() as int] == e);
                assert forall|a: int|
                    0 <= a < i + 1 && #[trigger] spec_script_kept(files@, a) implies 0
                    <= spec_script_kept_count(files@, a) < entries@.len()
                    && spec_script_entry_of(
                    files@[a],
                    entries@[spec_script_kept_count(files@, a)],
                ) by {
                    lemma_script_count_nonneg(files@, a);
                    if a < i {
                        lemma_script_count_mono(files@, a + 1, i as int);
                    } else {
                        assert(spec_script_kept_count(files@, a) == prev.len());
                    }
                }
            }
        } else {
            proof {
                assert(!spec_script_kept(files@, i as int));
                assert forall|a: int|
                    0 <= a < i + 1 && #[trigger] spec_script_kept(files@, a) implies 0
                    <= spec_script_kept_count(files@, a) < entries@.len()
                    && spec_script_entry_of(
                    files@[a],
                    entries@[spec_script_kept_count(files@, a)],
                ) by {
                    lemma_script_count_nonneg(files@, a);
                    if a < i {
                        lemma_script_count_mono(files@, a + 1, i as int);
                    }
                }
            }
        }
        i = i + 1;
    }
    proof {
        assert forall|k1: int, k2: int| 0 <= k1 < k2 < entries@.len() implies entries@[k1].keyword@
            != entries@[k2].keyword@ by {
            lemma_script_slot(files@, files@.len() as int, k1);
            lemma_script_slot(files@, files@.len() as int, k2);
            let a1 = choose|a: int|
                0 <= a < files@.len() && #[trigger] spec_script_kept(files@, a)
                    && spec_script_kept_count(files@, a) == k1;
            let a2 = choose|a: int|
                0 <= a < files@.len() && #[trigger] spec_script_kept(files@, a)
                    && spec_script_kept_count(files@, a) == k2;
            assert(entries@[k1].keyword@ == files@[a1].stem@);
            assert(entries@[k2].keyword@ == files@[a2].stem@);
            if a1 == a2 {
                assert(false);
            } else if a1 < a2 {
                lemma_script_count_mono(files@, a1 + 1, a2);
                assert(files@[a2].stem@ != files@[a1].stem@);
            } else {
                lemma_script_count_mono(files@, a2 + 1, a1);
                assert(false);
            }
        }
    }
    let ghost cand = entries@;
    let r = sort_scripts_by_keyword(entries);
    proof {
        lemma_permutation_distinct_keywords(cand, r@);
        assert forall|k: int| 0 <= k < r@.len() implies spec_scan_sourced(
            files@,
            #[trigger] r@[k],
        ) by {
            assert(r@.to_multiset().count(r@[k]) > 0);
            assert(cand.to_multiset().count(r@[k]) > 0);
            assert(cand.contains(r@[k]));
            let j = choose|j: int| 0 <= j < cand.len() && cand[j] == r@[k];
            assert(spec_scan_sourced(files@, cand[j]));
        }
        assert forall|i: int| #[trigger] spec_script_kept(files@, i) implies exists|k: int|
            0 <= k < r@.len() && spec_script_entry_of(files@[i], #[trigger] r@[k]) by {
            let slot = spec_script_kept_count(files@, i);
            assert(spec_script_entry_of(files@[i], cand[slot]));
            assert(cand.to_multiset().count(cand[slot]) > 0);
            assert(r@.to_multiset().count(cand[slot]) > 0);
            assert(r@.contains(cand[slot]));
            let k = choose|k: int| 0 <= k < r@.len() && r@[k] == cand[slot];
            assert(spec_script_entry_of(files@[i], r@[k]));
        }
    }
    r
}

/// Sorts script entries by keyword, ascending.
fn sort_scripts_by_keyword(v: Vec<ScriptEntry>) -> (r: Vec<ScriptEntry>)
    ensures
        forall|i: int, j: int|
            0 <= i < j < r@.len() ==> crate::text::lex_le(r@[i].keyword@, r@[j].keyword@),
        r@.to_multiset() == v@.to_multiset(),
        r@.len() == v@.len(),
{
    broadcast use vstd::seq_lib::group_to_multiset_ensures;

    let ghost orig = v@;
    let mut input = v;
    let mut out: Vec<ScriptEntry> = Vec::new();
    proof {
        assert(out@.to_multiset().add(input@.to_multiset()) =~= orig.to_multiset());
    }
    while input.len() > 0
        invariant
            out@.to_multiset().add(input@.to_multiset()) == orig.to_multiset(),
            forall|i: int, j: int|
                0 <= i < j < out@.len() ==> crate::text::lex_le(out@[i].keyword@, out@[j].keyword@),

            forall|i: int, j: int|
                0 <= i < out@.len() && 0 <= j < input@.len() ==> crate::text::lex_le(
                    out@[i].keyword@,
                    input@[j].keyword@,
                ),
        decreases input@.len(),
    {
        let mut best: usize = 0;
        let mut bi: usize = 1;
        proof {
            crate::text::lemma_lex_total(input@[0].keyword@, input@[0].keyword@);
        }
        while bi < input.len()
            invariant
                0 <= best < input@.len(),
                1 <= bi <= input@.len(),
                forall|j: int|
                    0 <= j < bi ==> crate::text::lex_le(
                        input@[best as int].keyword@,
                        input@[j].keyword@,
                    ),
            decreases input@.len() - bi,
        {
            let bk = crate::text::chars_of(input[best].keyword.as_str());
            let ck = crate::text::chars_of(input[bi].keyword.as_str());
            if !crate::text::lex_le_chars(bk.as_slice(), ck.as_slice()) {
                proof {
                    crate::text::lemma_lex_total(bk@, ck@);
                    assert forall|j: int| 0 <= j < bi + 1 implies crate::text::lex_le(
                        input@[bi as int].keyword@,
                        input@[j].keyword@,
                    ) by {
                        if j < bi {
                            crate::text::lemma_lex_trans(
                                input@[bi as int].keyword@,
                                input@[best as int].keyword@,
                                input@[j].keyword@,
                            );
                        } else {
                            crate::text::lemma_lex_total(
                                input@[bi as int].keyword@,
                                input@[bi as int].keyword@,
                            );
                        }
                    }
                }
                best = bi;
            }
            bi = bi + 1;
        }
        let ghost prev_in = input@;
        let ghost prev_out = out@;
        let x = input.remove(best);
        out.push(x);
        proof {
            prev_in.to_multiset_ensures();
            prev_out.to_multiset_ensures();
            assert(input@ == prev_in.remove(best as int));
            assert(out@ == prev_out.push(x));
            assert(input@.to_multiset() =~= prev_in.to_multiset().remove(x));
            assert(out@.to_multiset() =~= prev_out.to_multiset().insert(x));
            assert(prev_in.to_multiset().count(x) > 0);
            assert(out@.to_multiset().add(input@.to_multiset()) =~= orig.to_multiset());
            assert forall|i: int, j: int|
                0 <= i < out@.len() && 0 <= j < input@.len() implies crate::text::lex_le(
                out@[i].keyword@,
                input@[j].keyword@,
            ) by {
                assert(prev_in.contains(input@[j]));
            }
            assert forall|i: int, j: int| 0 <= i < j < out@.len() implies crate::text::lex_le(
                out@[i].keyword@,
                out@[j].keyword@,
            ) by {
                if j == out@.len() - 1 {
                    assert(prev_in.contains(x));
                }
            }
        }
    }
    proof {
        input@.to_multiset_ensures();
        out@.to_multiset_ensures();
        orig.to_multiset_ensures();
        assert(input@.to_multiset() =~= vstd::multiset::Multiset::<ScriptEntry>::empty());
        assert(out@.to_multiset() =~= orig.to_multiset());
    }
    out
}

/// Resolves a keyword to the path of the last-scanned listed script whose
/// stem equals it — the same source that owns the keyword in the snapshot;
/// the error names the keyword as the original caller did.
pub fn find_script_by_keyword(files: &Vec<ScriptSource>, keyword: &str) -> (r: Result<
    String,
    String,
>)
    ensures
        (match r {
            Ok(p) => exists|i: int|
                0 <= i < files@.len() && (#[trigger] files@[i]).stem@ == keyword@ && p@
                    == files@[i].path@ && (forall|j: int|
                    i < j < files@.len() ==> (#[trigger] files@[j]).stem@ != keyword@),
            Err(m) => (forall|i: int|
                0 <= i < files@.len() ==> (#[trigger] files@[i]).stem@ != keyword@) && m@
                == "Script '"@ + keyword@ + "' not found"@,
        }),
{
    let kc = crate::text::chars_of(keyword);
    let mut i: usize = files.len();
    while i > 0
        invariant
            0 <= i <= files@.len(),
            kc@ == keyword@,
            forall|j: int| i <= j < files@.len() ==> (#[trigger] files@[j]).stem@ != keyword@,
        decreases i,
    {
        let sc = crate::text::chars_of(files[i - 1].stem.as_str());
        if crate::text::eq_chars(sc.as_slice(), kc.as_slice()) {
            proof {
                assert(sc@ == files@[i - 1].stem@);
                assert((#[trigger] files@[i - 1]).stem@ == keyword@);
            }
            let p = crate::text::chars_of(files[i - 1].path.as_str());
            return Ok(crate::text::string_from_chars(p.as_slice()));
        }
        proof {
            assert((#[trigger] files@[i - 1]).stem@ != keyword@);
        }
        i = i - 1;
    }
    let mut m = crate::text::chars_of("Script '");
    m.extend_from_slice(kc.as_slice());
    m.extend_from_slice(crate::text::chars_of("' not found").as_slice());
    Err(crate::text::string_from_chars(m.as_slice()))
}

/// How the spawned script's wait ended.
pub enum WaitOutcome {
    /// The script exited; whether successfully, and with which code.
    Completed(bool, Option<i32>),
    /// The timeout elapsed first and the script was killed.
    TimedOut,
    /// Waiting itself failed, with the reported message.
    WaitFailed(String),
}

/// The first line of captured error text, as reported on failure.
pub open spec fn spec_first_line(s: Seq<char>) -> Seq<char> {
    let l = crate::text::spec_split(s, '\n')[0];
    if l.len() > 0 && l[l.len() - 1] == '\r' {
        l.drop_last()
    } else {
        l
    }
}

/// Interprets one finished script run against the output contract.
/// A timeout, a wait failure, a non-zero exit, empty output and
/// ill-formed output each fail with the documented message; otherwise the
/// parsed item list is returned, exactly as the trimmed output describes
/// it.
pub fn interpret_script_result(
    keyword: &str,
    timeout_ms: u64,
    outcome: WaitOutcome,
    stdout: &str,
    stderr: &str,
) -> (r: Result<ScriptOutput, String>)
    ensures
        outcome is TimedOut ==> r is Err && r->Err_0@ == "Script '"@ + keyword@
            + "' timed out after "@ + crate::text::spec_dec_nat(timeout_ms as int) + "ms"@,
        (outcome matches WaitOutcome::WaitFailed(e) ==> r is Err && r->Err_0@
            == "Error waiting for script '"@ + keyword@ + "': "@ + e@),
        (outcome matches WaitOutcome::Completed(success, _) && !success && stderr@.len() > 0 ==> r
            is Err && r->Err_0@ == "Script '"@ + keyword@ + "' error: "@ + spec_first_line(
            stderr@,
        )),
        (outcome is Completed && !outcome->Completed_0 && stderr@.len() == 0 ==> r is Err
            && r->Err_0@ == "Script '"@ + keyword@ + "' exited with code "@ + (
        match outcome->Completed_1 {
            Some(cd) => "Some("@ + crate::text::spec_dec_int(cd as int) + ")"@,
            None => "None"@,
        })),
        (outcome matches WaitOutcome::Completed(success, _) && success && crate::text::spec_trim(
            stdout@,
        ).len() == 0 ==> r is Err && r->Err_0@ == "Script '"@ + keyword@ + "' produced no output"@),
        (outcome matches WaitOutcome::Completed(success, _) && success && crate::text::spec_trim(
            stdout@,
        ).len() > 0 ==> ({
            let t = crate::text::spec_trim(stdout@);
            &&& (r is Ok <==> spec_parse_text(t) is Some && spec_output_valid_v(
                spec_parse_text(t)->0,
            ))
            &&& (r is Ok ==> spec_output_ok_v(spec_parse_text(t)->0, r->Ok_0))
            &&& (r is Err ==> r->Err_0@ == "Invalid JSON output from '"@ + keyword@
                + "'. Run the script manually to debug."@)
        })),
{
    let kc = crate::text::chars_of(keyword);
    match outcome {
        WaitOutcome::TimedOut => {
            let mut m = crate::text::chars_of("Script '");
            m.extend_from_slice(kc.as_slice());
            m.extend_from_slice(crate::text::chars_of("' timed out after ").as_slice());
            m.extend_from_slice(crate::text::u64_to_dec(timeout_ms).as_slice());
            m.extend_from_slice(crate::text::chars_of("ms").as_slice());
            Err(crate::text::string_from_chars(m.as_slice()))
        },
        WaitOutcome::WaitFailed(e) => {
            let mut m = crate::text::chars_of("Error waiting for script '");
            m.extend_from_slice(kc.as_slice());
            m.extend_from_slice(crate::text::chars_of("': ").as_slice());
            m.extend_from_slice(crate::text::chars_of(e.as_str()).as_slice());
            Err(crate::text::string_from_chars(m.as_slice()))
        },
        WaitOutcome::Completed(success, code) => {
            if !success {
                let ec = crate::text::chars_of(stderr);
                if ec.len() == 0 {
                    let mut m = crate::text::chars_of("Script '");
                    m.extend_from_slice(kc.as_slice());
                    m.extend_from_slice(crate::text::chars_of("' exited with code ").as_slice());
                    match code {
                        Some(cd) => {
                            m.extend_from_slice(crate::text::chars_of("Some(").as_slice());
                            m.extend_from_slice(crate::text::i64_to_dec(cd as i64).as_slice());
                            m.push(')');
                            proof {
                                reveal_strlit(")");
                                assert(seq![')'] =~= ")"@);
                            }
                        },
                        None => {
                            m.extend_from_slice(crate::text::chars_of("None").as_slice());
                        },
                    }
                    Err(crate::text::string_from_chars(m.as_slice()))
                } else {
                    let lines = crate::text::split_chars(ec.as_slice(), '\n');
                    proof {
                        crate::text::lemma_split_nonempty(stderr@, '\n');
                    }
                    let first = crate::text::sub_chars(lines[0].as_slice(), 0, lines[0].len());
                    proof {
                        assert(first@ =~= crate::text::spec_split(stderr@, '\n')[0]);
                    }
                    let first = if first.len() > 0 && first[first.len() - 1] == '\r' {
                        let t = crate::text::sub_chars(first.as_slice(), 0, first.len() - 1);
                        proof {
                            assert(t@ =~= first@.drop_last());
                        }
                        t
                    } else {
                        first
                    };
                    let mut m = crate::text::chars_of("Script '");
                    m.extend_from_slice(kc.as_slice());
                    m.extend_from_slice(crate::text::chars_of("' error: ").as_slice());
                    m.extend_from_slice(first.as_slice());
                    Err(crate::text::string_from_chars(m.as_slice()))
                }
            } else {
                let oc = crate::text::chars_of(stdout);
                let trimmed = crate::text::trim_chars(oc.as_slice());
                if trimmed.len() == 0 {
                    let mut m = crate::text::chars_of("Script '");
                    m.extend_from_slice(kc.as_slice());
                    m.extend_from_slice(crate::text::chars_of("' produced no output").as_slice());
                    Err(crate::text::string_from_chars(m.as_slice()))
                } else {
                    let ts = crate::text::string_from_chars(trimmed.as_slice());
                    match parse_script_output(ts.as_str()) {
                        Ok(out) => Ok(out),
                        Err(_) => {
                            let mut m = crate::text::chars_of("Invalid JSON output from '");
                            m.extend_from_slice(kc.as_slice());
                            m.extend_from_slice(
                                crate::text::chars_of(
                                    "'. Run the script manually to debug.",
                                ).as_slice(),
                            );
                            Err(crate::text::string_from_chars(m.as_slice()))
                        },
                    }
                }
            }
        },
    }
}

/// What shell-style word splitting yields for an argument string: a
/// function of the characters alone, or nothing when a quote is left
/// unclosed.
pub uninterp spec fn shell_split_of(s: Seq<char>) -> Option<Seq<Seq<char>>>;

/// Relies on shell_words::split: deterministic shell-style word splitting
/// of the argument string; it fails exactly on malformed quoting.
#[verifier::external_body]
pub fn split_args(args: &str) -> (r: Option<Vec<String>>)
    ensures
        r is Some <==> shell_split_of(args@) is Some,
        r is Some ==> r->0.deep_view() == shell_split_of(args@)->0,
{
    match shell_words::split(args) {
        Ok(v) => Some(v),
        Err(_) => None,
    }
}

/// Prepares one script invocation: resolves the keyword to a path and
/// splits the argument string shell-style.  An empty argument string
/// yields no arguments; malformed quoting fails with the documented
/// message, naming the keyword.
pub fn build_script_invocation(
    files: &Vec<ScriptSource>,
    keyword: &str,
    args: &str,
) -> (r: Result<(String, Vec<String>), String>)
    ensures
        (match r {
            Ok(p) => exists|i: int|
                0 <= i < files@.len() && (#[trigger] files@[i]).stem@ == keyword@ && p.0@
                    == files@[i].path@ && (args@.len() == 0 ==> p.1.deep_view() == Seq::<
                    Seq<char>,
                >::empty()) && (args@.len() > 0 ==> shell_split_of(args@) is Some
                    && p.1.deep_view() == shell_split_of(args@)->0),
            Err(m) => (forall|i: int|
                0 <= i < files@.len() ==> (#[trigger] files@[i]).stem@ != keyword@) && m@
                == "Script '"@ + keyword@ + "' not found"@ || (args@.len() > 0 && shell_split_of(
                args@,
            ) is None && m@ == "Invalid script args for '"@ + keyword@
                + "': missing closing quote"@),
        }),
{
    let path = match find_script_by_keyword(files, keyword) {
        Ok(p) => p,
        Err(m) => {
            return Err(m);
        },
    };
    let kc = crate::text::chars_of(keyword);
    let ac = crate::text::chars_of(args);
    if ac.len() == 0 {
        return Ok((path, Vec::new()));
    }
    match split_args(args) {
        Some(argv) => Ok((path, argv)),
        None => {
            let mut m = crate::text::chars_of("Invalid script args for '");
            m.extend_from_slice(kc.as_slice());
            m.extend_from_slice(crate::text::chars_of("': missing closing quote").as_slice());
            Err(crate::text::string_from_chars(m.as_slice()))
        },
    }
}


/// A JSON value abstractly: what the parser recognizes, over character
/// sequences.
pub enum JsonV {
    NullV,
    BoolV(bool),
    NumV(Seq<char>),
    StrV(Seq<char>),
    ArrV(Seq<JsonV>),
    ObjV(Seq<(Seq<char>, JsonV)>),
}

/// The abstract value of a parsed tree.
pub open spec fn jview(j: Json) -> JsonV
    decreases j,
{
    match j {
        Json::Null => JsonV::NullV,
        Json::Bool(b) => JsonV::BoolV(b),
        Json::Num(v) => JsonV::NumV(v@),
        Json::Str(v) => JsonV::StrV(v@),
        Json::Arr(a) => JsonV::ArrV(jview_list(a@)),
        Json::Obj(f) => JsonV::ObjV(jview_fields(f@)),
    }
}

pub open spec fn jview_list(a: Seq<Json>) -> Seq<JsonV>
    decreases a,
{
    if a.len() == 0 {
        Seq::<JsonV>::empty()
    } else {
        jview_list(a.drop_last()).push(jview(a.last()))
    }
}

pub open spec fn jview_fields(f: Seq<(Vec<char>, Json)>) -> Seq<(Seq<char>, JsonV)>
    decreases f,
{
    if f.len() == 0 {
        Seq::<(Seq<char>, JsonV)>::empty()
    } else {
        jview_fields(f.drop_last()).push((f.last().0@, jview(f.last().1)))
    }
}

proof fn lemma_jview_list_index(a: Seq<Json>)
    ensures
        jview_list(a).len() == a.len(),
        forall|k: int| 0 <= k < a.len() ==> #[trigger] jview_list(a)[k] == jview(a[k]),
    decreases a.len(),
{
    if a.len() > 0 {
        lemma_jview_list_index(a.drop_last());
    }
}

/// Whether a code point is a scalar value a character can carry.
pub open spec fn spec_valid_scalar(x: u32) -> bool {
    x < 0xD800 || (0xE000 <= x && x <= 0x10FFFF)
}

/// Position of the first non-whitespace character at or after `i`.
pub open spec fn spec_skip_ws(s: Seq<char>, i: int) -> int
    decreases s.len() - i,
{
    if 0 <= i < s.len() && crate::text::is_space_char(s[i]) {
        spec_skip_ws(s, i + 1)
    } else {
        i
    }
}

proof fn lemma_skip_ws_bounds(s: Seq<char>, i: int)
    ensures
        spec_skip_ws(s, i) >= i,
        i <= s.len() ==> spec_skip_ws(s, i) <= s.len(),
    decreases s.len() - i,
{
    if 0 <= i < s.len() && crate::text::is_space_char(s[i]) {
        lemma_skip_ws_bounds(s, i + 1);
    }
}

pub open spec fn spec_hex_val(c: char) -> Option<u32> {
    if c >= '0' && c <= '9' {
        Some(((c as u32) - ('0' as u32)) as u32)
    } else if c >= 'a' && c <= 'f' {
        Some(((c as u32) - ('a' as u32) + 10) as u32)
    } else if c >= 'A' && c <= 'F' {
        Some(((c as u32) - ('A' as u32) + 10) as u32)
    } else {
        None
    }
}

pub open spec fn spec_read_hex4(s: Seq<char>, i: int) -> Option<(u32, int)> {
    if i < 0 || s.len() - i < 4 {
        None
    } else {
        match (spec_hex_val(s[i]), spec_hex_val(s[i + 1]), spec_hex_val(s[i + 2]), spec_hex_val(
            s[i + 3],
        )) {
            (Some(a), Some(b), Some(c), Some(d)) => Some(
                ((((a * 16 + b) * 16 + c) * 16 + d) as u32, i + 4),
            ),
            _ => None,
        }
    }
}

/// The decoded remainder of a string body from `j`, with `acc` already
/// decoded: characters up to the closing quote, escapes as in the JSON
/// grammar, surrogate pairs combined.
pub open spec fn spec_str_rest(s: Seq<char>, j: int, acc: Seq<char>) -> Option<(Seq<char>, int)>
    decreases s.len() - j,
{
    if j < 0 || j >= s.len() {
        None
    } else if s[j] == '"' {
        Some((acc, j + 1))
    } else if s[j] == '\\' {
        if j + 1 >= s.len() {
            None
        } else {
            let e = s[j + 1];
            if e == '"' || e == '\\' || e == '/' {
                spec_str_rest(s, j + 2, acc.push(e))
            } else if e == 'b' {
                spec_str_rest(s, j + 2, acc.push(8u8 as char))
            } else if e == 'f' {
                spec_str_rest(s, j + 2, acc.push(12u8 as char))
            } else if e == 'n' {
                spec_str_rest(s, j + 2, acc.push('\n'))
            } else if e == 'r' {
                spec_str_rest(s, j + 2, acc.push('\r'))
            } else if e == 't' {
                spec_str_rest(s, j + 2, acc.push('\t'))
            } else if e == 'u' {
                match spec_read_hex4(s, j + 2) {
                    Some((u1, p1)) => if u1 >= 0xD800 && u1 < 0xDC00 {
                        if p1 < s.len() && p1 + 1 < s.len() && s[p1] == '\\' && s[p1 + 1] == 'u' {
                            match spec_read_hex4(s, p1 + 2) {
                                Some((u2, p2)) => if u2 >= 0xDC00 && u2 < 0xE000 {
                                    let cp = (0x10000 + ((u1 - 0xD800) * 0x400) + (u2
                                        - 0xDC00)) as u32;
                                    if spec_valid_scalar(cp) && p2 > j {
                                        spec_str_rest(s, p2, acc.push(cp as char))
                                    } else {
                                        None
                                    }
                                } else {
                                    None
                                },
                                None => None,
                            }
                        } else {
                            None
                        }
                    } else {
                        if spec_valid_scalar(u1) && p1 > j {
                            spec_str_rest(s, p1, acc.push(u1 as char))
                        } else {
                            None
                        }
                    },
                    None => None,
                }
            } else {
                None
            }
        }
    } else {
        spec_str_rest(s, j + 1, acc.push(s[j]))
    }
}

/// A string token starting at the opening quote at `i`.
pub open spec fn spec_parse_jstring(s: Seq<char>, i: int) -> Option<(Seq<char>, int)> {
    if 0 <= i < s.len() && s[i] == '"' {
        spec_str_rest(s, i + 1, Seq::<char>::empty())
    } else {
        None
    }
}

pub open spec fn spec_is_num_char(c: char) -> bool {
    (c >= '0' && c <= '9') || c == '-' || c == '+' || c == '.' || c == 'e' || c == 'E'
}

/// The greedy remainder of a number token.
pub open spec fn spec_num_rest(s: Seq<char>, j: int, acc: Seq<char>) -> (Seq<char>, int)
    decreases s.len() - j,
{
    if 0 <= j < s.len() && spec_is_num_char(s[j]) {
        spec_num_rest(s, j + 1, acc.push(s[j]))
    } else {
        (acc, j)
    }
}

/// One JSON value starting at `i`, with no leading whitespace: the
/// abstract value and the position just past it.  This is the grammar the
/// executable parser recognizes.
pub open spec fn spec_parse_value(s: Seq<char>, i: int) -> Option<(JsonV, int)>
    decreases s.len() - i, 1int,
{
    if i < 0 || i >= s.len() {
        None
    } else {
        let c = s[i];
        if c == 'n' {
            if s.len() - i >= 4 && s[i + 1] == 'u' && s[i + 2] == 'l' && s[i + 3] == 'l' {
                Some((JsonV::NullV, i + 4))
            } else {
                None
            }
        } else if c == 't' {
            if s.len() - i >= 4 && s[i + 1] == 'r' && s[i + 2] == 'u' && s[i + 3] == 'e' {
                Some((JsonV::BoolV(true), i + 4))
            } else {
                None
            }
        } else if c == 'f' {
            if s.len() - i >= 5 && s[i + 1] == 'a' && s[i + 2] == 'l' && s[i + 3] == 's' && s[i
                + 4] == 'e' {
                Some((JsonV::BoolV(false), i + 5))
            } else {
                None
            }
        } else if c == '"' {
            match spec_parse_jstring(s, i) {
                Some((v, p)) => Some((JsonV::StrV(v), p)),
                None => None,
            }
        } else if c == '-' || (c >= '0' && c <= '9') {
            let r = spec_num_rest(s, i + 1, seq![c]);
            Some((JsonV::NumV(r.0), r.1))
        } else if c == '[' {
            spec_parse_array(s, i)
        } else if c == '{' {
            spec_parse_object(s, i)
        } else {
            None
        }
    }
}

/// An array starting at its `[`.
pub open spec fn spec_parse_array(s: Seq<char>, i: int) -> Option<(JsonV, int)>
    decreases s.len() - i, 0int,
{
    let j = spec_skip_ws(s, i + 1);
    if j < s.len() && s[j] == ']' {
        Some((JsonV::ArrV(Seq::<JsonV>::empty()), j + 1))
    } else if j <= i || j > s.len() {
        None
    } else {
        spec_arr_items(s, j, Seq::<JsonV>::empty())
    }
}

/// The remaining array elements from a value position `j`, with `acc`
/// already read.
pub open spec fn spec_arr_items(s: Seq<char>, j: int, acc: Seq<JsonV>) -> Option<(JsonV, int)>
    decreases s.len() - j, 2int,
{
    match spec_parse_value(s, j) {
        None => None,
        Some((v, p)) => if p <= j || p > s.len() {
            None
        } else {
            let q = spec_skip_ws(s, p);
            if q < s.len() && s[q] == ',' {
                let j2 = spec_skip_ws(s, q + 1);
                if j2 <= j || j2 > s.len() {
                    None
                } else {
                    spec_arr_items(s, j2, acc.push(v))
                }
            } else if q < s.len() && s[q] == ']' {
                Some((JsonV::ArrV(acc.push(v)), q + 1))
            } else {
                None
            }
        },
    }
}

/// An object starting at its `{`.
pub open spec fn spec_parse_object(s: Seq<char>, i: int) -> Option<(JsonV, int)>
    decreases s.len() - i, 0int,
{
    let j = spec_skip_ws(s, i + 1);
    if j < s.len() && s[j] == '}' {
        Some((JsonV::ObjV(Seq::<(Seq<char>, JsonV)>::empty()), j + 1))
    } else if j <= i || j > s.len() {
        None
    } else {
        spec_obj_fields(s, j, Seq::<(Seq<char>, JsonV)>::empty())
    }
}

/// The remaining object members from a key position `j`, with `acc`
/// already read.
pub open spec fn spec_obj_fields(s: Seq<char>, j: int, acc: Seq<(Seq<char>, JsonV)>) -> Option<
    (JsonV, int),
>
    decreases s.len() - j, 2int,
{
    if j >= s.len() {
        None
    } else {
        match spec_parse_jstring(s, j) {
            None => None,
            Some((key, p)) => {
                let q = spec_skip_ws(s, p);
                if !(q < s.len() && s[q] == ':') {
                    None
                } else {
                    let vstart = spec_skip_ws(s, q + 1);
                    if vstart <= j || vstart > s.len() {
                        None
                    } else {
                        match spec_parse_value(s, vstart) {
                            None => None,
                            Some((v, p2)) => if p2 <= j || p2 > s.len() {
                                None
                            } else {
                                let q2 = spec_skip_ws(s, p2);
                                if q2 < s.len() && s[q2] == ',' {
                                    let q3 = spec_skip_ws(s, q2 + 1);
                                    if q3 <= j || q3 > s.len() {
                                        None
                                    } else {
                                        spec_obj_fields(s, q3, acc.push((key, v)))
                                    }
                                } else if q2 < s.len() && s[q2] == '}' {
                                    Some((JsonV::ObjV(acc.push((key, v))), q2 + 1))
                                } else {
                                    None
                                }
                            },
                        }
                    }
                }
            },
        }
    }
}

/// The whole text as exactly one JSON value, allowing surrounding
/// whitespace.
pub open spec fn spec_parse_text(s: Seq<char>) -> Option<JsonV> {
    let st = spec_skip_ws(s, 0);
    match spec_parse_value(s, st) {
        Some((jv, p)) => if spec_skip_ws(s, p) == s.len() {
            Some(jv)
        } else {
            None
        },
        None => None,
    }
}


/// The value of the last field named `key` in an abstract object.
pub open spec fn spec_get_field_v(fields: Seq<(Seq<char>, JsonV)>, key: Seq<char>) -> Option<JsonV>
    decreases fields.len(),
{
    if fields.len() == 0 {
        None
    } else if fields.last().0 == key {
        Some(fields.last().1)
    } else {
        spec_get_field_v(fields.drop_last(), key)
    }
}

pub open spec fn spec_action_valid_v(fields: Seq<(Seq<char>, JsonV)>) -> bool {
    &&& (match spec_get_field_v(fields, "type"@) {
        Some(JsonV::StrV(s)) => s == "copy"@ || s == "open"@ || s == "run"@,
        _ => false,
    })
    &&& (match spec_get_field_v(fields, "value"@) {
        Some(JsonV::StrV(_)) => true,
        _ => false,
    })
}

pub open spec fn spec_action_ok_v(fields: Seq<(Seq<char>, JsonV)>, a: ScriptAction) -> bool {
    &&& (match spec_get_field_v(fields, "type"@) {
        Some(JsonV::StrV(s)) => (s == "copy"@ && a.action_type == ActionType::Copy) || (s
            == "open"@ && a.action_type == ActionType::Open) || (s == "run"@ && a.action_type
            == ActionType::Run),
        _ => false,
    })
    &&& (match spec_get_field_v(fields, "value"@) {
        Some(JsonV::StrV(s)) => a.value@ == s,
        _ => false,
    })
}

pub open spec fn spec_opt_str_valid_v(fields: Seq<(Seq<char>, JsonV)>, key: Seq<char>) -> bool {
    match spec_get_field_v(fields, key) {
        None => true,
        Some(JsonV::NullV) => true,
        Some(JsonV::StrV(_)) => true,
        Some(_) => false,
    }
}

pub open spec fn spec_opt_str_ok_v(
    fields: Seq<(Seq<char>, JsonV)>,
    key: Seq<char>,
    v: Option<String>,
) -> bool {
    match spec_get_field_v(fields, key) {
        None => v is None,
        Some(JsonV::NullV) => v is None,
        Some(JsonV::StrV(s)) => v is Some && v->0@ == s,
        Some(_) => false,
    }
}

/// [`spec_item_valid`] over an abstract value.
pub open spec fn spec_item_valid_v(j: JsonV) -> bool {
    &&& j is ObjV
    &&& (match spec_get_field_v(j->ObjV_0, "title"@) {
        Some(JsonV::StrV(_)) => true,
        _ => false,
    })
    &&& spec_opt_str_valid_v(j->ObjV_0, "subtitle"@)
    &&& spec_opt_str_valid_v(j->ObjV_0, "icon"@)
    &&& spec_opt_str_valid_v(j->ObjV_0, "badge"@)
    &&& (match spec_get_field_v(j->ObjV_0, "action"@) {
        None => true,
        Some(JsonV::NullV) => true,
        Some(JsonV::ObjV(af)) => spec_action_valid_v(af),
        Some(_) => false,
    })
    &&& (match spec_get_field_v(j->ObjV_0, "urgency"@) {
        None => true,
        Some(JsonV::StrV(s)) => s == "low"@ || s == "normal"@ || s == "critical"@,
        Some(_) => false,
    })
}

/// [`spec_item_ok`] over an abstract value.
pub open spec fn spec_item_ok_v(j: JsonV, item: ScriptItem) -> bool {
    &&& j is ObjV
    &&& (match spec_get_field_v(j->ObjV_0, "title"@) {
        Some(JsonV::StrV(s)) => item.title@ == s,
        _ => false,
    })
    &&& spec_opt_str_ok_v(j->ObjV_0, "subtitle"@, item.subtitle)
    &&& spec_opt_str_ok_v(j->ObjV_0, "icon"@, item.icon)
    &&& spec_opt_str_ok_v(j->ObjV_0, "badge"@, item.badge)
    &&& (match spec_get_field_v(j->ObjV_0, "action"@) {
        None => item.action is None,
        Some(JsonV::NullV) => item.action is None,
        Some(JsonV::ObjV(af)) => item.action is Some && spec_action_ok_v(af, item.action->0),
        Some(_) => false,
    })
    &&& (match spec_get_field_v(j->ObjV_0, "urgency"@) {
        None => item.urgency == Urgency::Normal,
        Some(JsonV::StrV(s)) => (s == "low"@ && item.urgency == Urgency::Low) || (s == "normal"@
            && item.urgency == Urgency::Normal) || (s == "critical"@ && item.urgency
            == Urgency::Critical),
        _ => false,
    })
}

/// [`spec_output_valid`] over an abstract value.
pub open spec fn spec_output_valid_v(j: JsonV) -> bool {
    &&& j is ObjV
    &&& (match spec_get_field_v(j->ObjV_0, "items"@) {
        Some(JsonV::ArrV(a)) => forall|k: int| 0 <= k < a.len() ==> spec_item_valid_v(#[trigger] a[k]),
        _ => false,
    })
}

/// [`spec_output_ok`] over an abstract value.
pub open spec fn spec_output_ok_v(j: JsonV, out: ScriptOutput) -> bool {
    &&& j is ObjV
    &&& (match spec_get_field_v(j->ObjV_0, "items"@) {
        Some(JsonV::ArrV(a)) => out.items@.len() == a.len() && forall|k: int|
            0 <= k < a.len() ==> spec_item_ok_v(a[k], #[trigger] out.items@[k]),
        _ => false,
    })
}

proof fn lemma_get_field_jv(fields: Seq<(Vec<char>, Json)>, key: Seq<char>)
    ensures
        spec_get_field_v(jview_fields(fields), key) == (match spec_get_field(fields, key) {
            Some(x) => Some(jview(x)),
            None => None,
        }),
    decreases fields.len(),
{
    if fields.len() > 0 {
        assert(jview_fields(fields).last() == (fields.last().0@, jview(fields.last().1)));
        assert(jview_fields(fields).drop_last() =~= jview_fields(fields.drop_last()));
        lemma_get_field_jv(fields.drop_last(), key);
    }
}

proof fn lemma_opt_str_transfer(fields: Seq<(Vec<char>, Json)>, key: Seq<char>, v: Option<String>)
    ensures
        spec_opt_str_valid_v(jview_fields(fields), key) == spec_opt_str_valid(fields, key),
        spec_opt_str_ok_v(jview_fields(fields), key, v) == spec_opt_str_ok(fields, key, v),
{
    lemma_get_field_jv(fields, key);
}

proof fn lemma_action_transfer(af: Seq<(Vec<char>, Json)>, a: ScriptAction)
    ensures
        spec_action_valid_v(jview_fields(af)) == spec_action_valid(af),
        spec_action_ok_v(jview_fields(af), a) == spec_action_ok(af, a),
{
    lemma_get_field_jv(af, "type"@);
    lemma_get_field_jv(af, "value"@);
}

proof fn lemma_item_transfer(j: Json, item: ScriptItem)
    ensures
        spec_item_valid_v(jview(j)) == spec_item_valid(j),
        spec_item_ok_v(jview(j), item) == spec_item_ok(j, item),
{
    match j {
        Json::Obj(f) => {
            lemma_get_field_jv(f@, "title"@);
            lemma_opt_str_transfer(f@, "subtitle"@, item.subtitle);
            lemma_opt_str_transfer(f@, "icon"@, item.icon);
            lemma_opt_str_transfer(f@, "badge"@, item.badge);
            lemma_get_field_jv(f@, "action"@);
            match spec_get_field(f@, "action"@) {
                Some(Json::Obj(af)) => {
                    if item.action is Some {
                        lemma_action_transfer(af@, item.action->0);
                    } else {
                        lemma_action_transfer(af@, vstd::pervasive::arbitrary());
                    }
                },
                _ => {
                },
            }
            lemma_get_field_jv(f@, "urgency"@);
        },
        _ => {
        },
    }
}

proof fn lemma_output_transfer(j: Json, out: ScriptOutput)
    ensures
        spec_output_valid_v(jview(j)) == spec_output_valid(j),
        spec_output_ok_v(jview(j), out) == spec_output_ok(j, out),
{
    match j {
        Json::Obj(f) => {
            lemma_get_field_jv(f@, "items"@);
            let g = spec_get_field(f@, "items"@);
            let gv = spec_get_field_v(jview_fields(f@), "items"@);
            match g {
                Some(Json::Arr(a)) => {
                    lemma_jview_list_index(a@);
                    assert(g->0->Arr_0 == a);
                    assert(gv == Some(JsonV::ArrV(jview_list(a@))));
                    assert(gv->0->ArrV_0 == jview_list(a@));
                    if spec_output_valid(j) {
                        assert forall|k: int|
                            0 <= k < gv->0->ArrV_0.len() implies spec_item_valid_v(
                            #[trigger] gv->0->ArrV_0[k],
                        ) by {
                            assert(spec_item_valid(g->0->Arr_0@[k]));
                            lemma_item_transfer(a@[k], vstd::pervasive::arbitrary());
                            assert(spec_item_valid_v(jview_list(a@)[k]));
                        }
                        assert(spec_output_valid_v(jview(j)));
                    }
                    if spec_output_valid_v(jview(j)) {
                        assert forall|k: int|
                            0 <= k < g->0->Arr_0@.len() implies spec_item_valid(
                            #[trigger] g->0->Arr_0@[k],
                        ) by {
                            assert(spec_item_valid_v(gv->0->ArrV_0[k]));
                            lemma_item_transfer(a@[k], vstd::pervasive::arbitrary());
                        }
                        assert(spec_output_valid(j));
                    }
                    if spec_output_ok(j, out) {
                        assert(out.items@.len() == a@.len());
                        assert forall|k: int|
                            0 <= k < gv->0->ArrV_0.len() implies spec_item_ok_v(
                            gv->0->ArrV_0[k],
                            #[trigger] out.items@[k],
                        ) by {
                            assert(spec_item_ok(g->0->Arr_0@[k], out.items@[k]));
                            lemma_item_transfer(a@[k], out.items@[k]);
                            assert(spec_item_ok_v(jview_list(a@)[k], out.items@[k]));
                        }
                        assert(spec_output_ok_v(jview(j), out));
                    }
                    if spec_output_ok_v(jview(j), out) {
                        assert(out.items@.len() == a@.len());
                        assert forall|k: int|
                            0 <= k < g->0->Arr_0@.len() implies spec_item_ok(
                            g->0->Arr_0@[k],
                            #[trigger] out.items@[k],
                        ) by {
                            assert(spec_item_ok_v(gv->0->ArrV_0[k], out.items@[k]));
                            lemma_item_transfer(a@[k], out.items@[k]);
                        }
                        assert(spec_output_ok(j, out));
                    }
                },
                _ => {
                    assert(!spec_output_valid(j));
                    assert(!spec_output_ok(j, out));
                    assert(match gv {
                        Some(x) => !(x is ArrV),
                        None => true,
                    });
                    assert(!spec_output_valid_v(jview(j)));
                    assert(!spec_output_ok_v(jview(j), out));
                },
            }
        },
        _ => {
        },
    }
}

} // verus!






