//! Tag attributes: the attribute grammar `name="value" name='value' bare`, and lookups.
use vstd::prelude::*;

use crate::ast::{opt_view, Str};
use crate::parser::{error, ParseError};
use crate::scan::lit;
use crate::source::offs_wf;
use crate::text::{is_ascii_whitespace, is_ascii_ws, join3, str_eq, string_of, trim, trim_bounds};

verus! {

/// The value recorded for an attribute written without `=` (only `required` may be bare).
pub const BARE_ATTR_SENTINEL: &'static str = "__aml_bare_attribute__";

pub open spec fn bare_text() -> Seq<char> {
    "__aml_bare_attribute__"@
}

/// The value of a bare attribute named `name`.
pub open spec fn bare_value(name: Seq<char>) -> Seq<char> {
    if name == "required"@ {
        "true"@
    } else {
        bare_text()
    }
}

/// The position after the ASCII white space at `pos`.
pub open spec fn skip_ws(t: Seq<char>, pos: int) -> int
    decreases t.len() - pos,
{
    if 0 <= pos < t.len() && is_ascii_ws(t[pos]) {
        skip_ws(t, pos + 1)
    } else {
        pos
    }
}

/// The end of the attribute name at `pos`: it stops at `=`, `/`, `>` or white space.
pub open spec fn name_end(t: Seq<char>, pos: int) -> int
    decreases t.len() - pos,
{
    if 0 <= pos < t.len() && t[pos] != '=' && t[pos] != '/' && t[pos] != '>' && !is_ascii_ws(t[pos]) {
        name_end(t, pos + 1)
    } else {
        pos
    }
}

/// The position of the quote `q` that closes a value starting at `pos`.
pub open spec fn value_end(t: Seq<char>, pos: int, q: char) -> int
    decreases t.len() - pos,
{
    if 0 <= pos < t.len() && t[pos] != q {
        value_end(t, pos + 1, q)
    } else {
        pos
    }
}

/// What the attribute grammar makes of a (trimmed) attribute text.
pub enum AttrOutcome {
    /// The attributes in order of appearance (a later one overrides an earlier one).
    Parsed(Seq<(Str, Str)>),
    /// An `=` not followed by a quote, at position `at`.
    Unquoted { name: Str, at: int },
    /// A value whose quote (at `from - 1`) is not closed.
    Unclosed { name: Str, from: int },
}

pub open spec fn prepend(a: (Str, Str), o: AttrOutcome) -> AttrOutcome {
    match o {
        AttrOutcome::Parsed(l) => AttrOutcome::Parsed(seq![a] + l),
        _ => o,
    }
}

pub open spec fn prepend_all(acc: Seq<(Str, Str)>, o: AttrOutcome) -> AttrOutcome {
    match o {
        AttrOutcome::Parsed(l) => AttrOutcome::Parsed(acc + l),
        _ => o,
    }
}

proof fn lemma_skip_ws(t: Seq<char>, pos: int)
    ensures
        skip_ws(t, pos) >= pos,
        0 <= pos <= t.len() ==> skip_ws(t, pos) <= t.len(),
    decreases t.len() - pos,
{
    if 0 <= pos < t.len() && is_ascii_ws(t[pos]) {
        lemma_skip_ws(t, pos + 1);
    }
}

proof fn lemma_name_end(t: Seq<char>, pos: int)
    ensures
        name_end(t, pos) >= pos,
        0 <= pos <= t.len() ==> name_end(t, pos) <= t.len(),
    decreases t.len() - pos,
{
    if 0 <= pos < t.len() && t[pos] != '=' && t[pos] != '/' && t[pos] != '>' && !is_ascii_ws(t[pos]) {
        lemma_name_end(t, pos + 1);
    }
}

proof fn lemma_value_end(t: Seq<char>, pos: int, q: char)
    ensures
        value_end(t, pos, q) >= pos,
        0 <= pos <= t.len() ==> value_end(t, pos, q) <= t.len(),
        0 <= pos <= t.len() && value_end(t, pos, q) < t.len() ==> t[value_end(t, pos, q)] == q,
    decreases t.len() - pos,
{
    if 0 <= pos < t.len() && t[pos] != q {
        lemma_value_end(t, pos + 1, q);
    }
}

/// The attribute grammar, from position `pos` of the trimmed attribute text `t`.
pub open spec fn attr_scan(t: Seq<char>, pos: int) -> AttrOutcome
    decreases t.len() - pos,
{
    let p1 = skip_ws(t, pos);
    if pos < 0 || p1 >= t.len() {
        AttrOutcome::Parsed(Seq::empty())
    } else {
        let ne = name_end(t, p1);
        if ne <= p1 {
            AttrOutcome::Parsed(Seq::empty())
        } else {
            let name = t.subrange(p1, ne);
            let p2 = skip_ws(t, ne);
            if p2 >= t.len() || t[p2] != '=' {
                if pos < p2 <= t.len() {
                    prepend((name, bare_value(name)), attr_scan(t, p2))
                } else {
                    AttrOutcome::Parsed(Seq::empty())
                }
            } else {
                let p3 = skip_ws(t, p2 + 1);
                if p3 >= t.len() || (t[p3] != '"' && t[p3] != '\'') {
                    AttrOutcome::Unquoted { name, at: p3 }
                } else {
                    let ve = value_end(t, p3 + 1, t[p3]);
                    if ve >= t.len() {
                        AttrOutcome::Unclosed { name, from: p3 + 1 }
                    } else if pos < ve + 1 <= t.len() {
                        prepend((name, t.subrange(p3 + 1, ve)), attr_scan(t, ve + 1))
                    } else {
                        AttrOutcome::Parsed(Seq::empty())
                    }
                }
            }
        }
    }
}

/// The message of a failed attribute reading.
pub open spec fn attr_error(o: AttrOutcome) -> Str {
    match o {
        AttrOutcome::Unquoted { name, .. } => "expected quoted value for attribute '"@ + name + "'"@,
        AttrOutcome::Unclosed { name, .. } => "unclosed quote for attribute '"@ + name + "'"@,
        AttrOutcome::Parsed(_) => Seq::empty(),
    }
}

/// The attributes of an attribute text (`name="value"` pairs and bare names).
pub open spec fn attributes_of(s: Seq<char>) -> AttrOutcome {
    attr_scan(trim(s), 0)
}

/// The value of attribute `key` (its last occurrence), if present.
pub open spec fn attr_get(a: Seq<(Str, Str)>, key: Str) -> Option<Str>
    decreases a.len(),
{
    if a.len() == 0 {
        None
    } else if a.last().0 == key {
        Some(a.last().1)
    } else {
        attr_get(a.drop_last(), key)
    }
}

/// The model of an attribute list.
pub open spec fn attrs_view(v: Seq<(String, String)>) -> Seq<(Str, Str)> {
    Seq::new(v.len(), |i: int| (v[i].0@, v[i].1@))
}

/// The value of attribute `key`, if present.
pub fn get_attr(a: &Vec<(String, String)>, key: &str) -> (r: Option<String>)
    ensures
        opt_view(r) == attr_get(attrs_view(a@), key@),
        match r {
            Some(v) => attr_get(attrs_view(a@), key@) == Some(v@),
            None => attr_get(attrs_view(a@), key@) is None,
        },
{
    let mut i = a.len();
    assert(attrs_view(a@).take(a@.len() as int) =~= attrs_view(a@));
    while i > 0
        invariant
            0 <= i <= a@.len(),
            attr_get(attrs_view(a@), key@) == attr_get(attrs_view(a@).take(i as int), key@),
        decreases i,
    {
        let ghost v = attrs_view(a@).take(i as int);
        assert(v.drop_last() =~= attrs_view(a@).take(i - 1));
        assert(v.last() == (a@[i - 1].0@, a@[i - 1].1@));
        if str_eq(a[i - 1].0.as_str(), key) {
            return Some(a[i - 1].1.clone());
        }
        i = i - 1;
    }
    None
}

/// Whether attribute `key` is present.
pub fn has_attr(a: &Vec<(String, String)>, key: &str) -> (b: bool)
    ensures
        b == attr_get(attrs_view(a@), key@) is Some,
{
    get_attr(a, key).is_some()
}

/// Parse the attributes of `t` (already trimmed).
fn scan_attrs(t: &Vec<char>) -> (r: Result<Vec<(String, String)>, (String, bool, usize, usize)>)
    ensures
        match r {
            Ok(v) => attr_scan(t@, 0) == AttrOutcome::Parsed(attrs_view(v@)),
            Err((name, unclosed, a, b)) => a <= b <= t@.len() && if unclosed {
                attr_scan(t@, 0) == (AttrOutcome::Unclosed { name: name@, from: a as int }) && b == t@.len() && 1 <= a
            } else {
                attr_scan(t@, 0) == (AttrOutcome::Unquoted { name: name@, at: a as int }) && b == a
            },
        },
{
    let n = t.len();
    let mut attrs: Vec<(String, String)> = Vec::new();
    let mut pos: usize = 0;
    proof {
        reveal_strlit("required");
        reveal_strlit("true");
    }
    while pos < n
        invariant
            n == t@.len(),
            0 <= pos <= n,
            attr_scan(t@, 0) == prepend_all(attrs_view(attrs@), attr_scan(t@, pos as int)),
        decreases n - pos,
    {
        let ghost pos0 = pos as int;
        proof {
            lemma_skip_ws(t@, pos as int);
        }
        while pos < n && is_ascii_whitespace(t[pos])
            invariant
                n == t@.len(),
                pos0 <= pos <= n,
                skip_ws(t@, pos0) == skip_ws(t@, pos as int),
            decreases n - pos,
        {
            pos = pos + 1;
        }
        if pos >= n {
            assert(attr_scan(t@, pos0) == AttrOutcome::Parsed(Seq::<(Str, Str)>::empty()));
            assert(attrs_view(attrs@) + Seq::<(Str, Str)>::empty() =~= attrs_view(attrs@));
            return Ok(attrs);
        }
        let p1 = pos;
        proof {
            lemma_name_end(t@, p1 as int);
        }
        while pos < n && t[pos] != '=' && t[pos] != '/' && t[pos] != '>' && !is_ascii_whitespace(t[pos])
            invariant
                n == t@.len(),
                p1 <= pos <= n,
                name_end(t@, p1 as int) == name_end(t@, pos as int),
            decreases n - pos,
        {
            pos = pos + 1;
        }
        let ne = pos;
        if ne == p1 {
            assert(attr_scan(t@, pos0) == AttrOutcome::Parsed(Seq::<(Str, Str)>::empty()));
            assert(attrs_view(attrs@) + Seq::<(Str, Str)>::empty() =~= attrs_view(attrs@));
            return Ok(attrs);
        }
        let name = string_of(t.as_slice(), p1, ne);
        proof {
            lemma_skip_ws(t@, ne as int);
        }
        while pos < n && is_ascii_whitespace(t[pos])
            invariant
                n == t@.len(),
                ne <= pos <= n,
                skip_ws(t@, ne as int) == skip_ws(t@, pos as int),
            decreases n - pos,
        {
            pos = pos + 1;
        }
        if pos >= n || t[pos] != '=' {
            let bare = if str_eq(name.as_str(), "required") {
                String::from_str("true")
            } else {
                String::from_str(BARE_ATTR_SENTINEL)
            };
            proof {
                reveal_strlit("__aml_bare_attribute__");
            }
            assert(bare@ == bare_value(name@));
            let ghost before = attrs_view(attrs@);
            attrs.push((name, bare));
            assert(attrs_view(attrs@) =~= before.push((name@, bare@)));
            assert(attr_scan(t@, pos0) == prepend((name@, bare@), attr_scan(t@, pos as int)));
            proof {
                let rest = attr_scan(t@, pos as int);
                if rest is Parsed {
                    assert(before + (seq![(name@, bare@)] + rest->Parsed_0) =~= attrs_view(attrs@) + rest->Parsed_0);
                }
            }
            continue;
        }
        pos = pos + 1;
        let p2 = pos;
        proof {
            lemma_skip_ws(t@, p2 as int);
        }
        while pos < n && is_ascii_whitespace(t[pos])
            invariant
                n == t@.len(),
                p2 <= pos <= n,
                skip_ws(t@, p2 as int) == skip_ws(t@, pos as int),
            decreases n - pos,
        {
            pos = pos + 1;
        }
        if pos >= n || (t[pos] != '"' && t[pos] != '\'') {
            return Err((name, false, pos, pos));
        }
        let quote = t[pos];
        pos = pos + 1;
        let value_start = pos;
        proof {
            lemma_value_end(t@, value_start as int, quote);
        }
        while pos < n && t[pos] != quote
            invariant
                n == t@.len(),
                value_start <= pos <= n,
                value_end(t@, value_start as int, quote) == value_end(t@, pos as int, quote),
            decreases n - pos,
        {
            pos = pos + 1;
        }
        if pos >= n {
            return Err((name, true, value_start, pos));
        }
        let value = string_of(t.as_slice(), value_start, pos);
        pos = pos + 1;
        let ghost before = attrs_view(attrs@);
        attrs.push((name, value));
        assert(attrs_view(attrs@) =~= before.push((name@, value@)));
        assert(attr_scan(t@, pos0) == prepend((name@, value@), attr_scan(t@, pos as int)));
        proof {
            let rest = attr_scan(t@, pos as int);
            if rest is Parsed {
                assert(before + (seq![(name@, value@)] + rest->Parsed_0) =~= attrs_view(attrs@) + rest->Parsed_0);
            }
        }
    }
    assert(attr_scan(t@, pos as int) == AttrOutcome::Parsed(Seq::<(Str, Str)>::empty()));
    assert(attrs_view(attrs@) + Seq::<(Str, Str)>::empty() =~= attrs_view(attrs@));
    Ok(attrs)
}

/// Parse the attributes written in `s[lo..hi]` (the inside of a tag after its name).
/// Error spans are byte offsets, counted from `offs[lo]` as in the trimmed text.
pub fn parse_attributes(s: &[char], lo: usize, hi: usize, offs: &[usize]) -> (r: Result<Vec<(String, String)>, ParseError>)
    requires
        lo <= hi <= s@.len(),
        offs_wf(s@, offs@),
    ensures
        match r {
            Ok(v) => attributes_of(s@.subrange(lo as int, hi as int)) == AttrOutcome::Parsed(attrs_view(v@)),
            Err(e) => match attributes_of(s@.subrange(lo as int, hi as int)) {
                AttrOutcome::Unquoted { name, .. } => e.message@ == "expected quoted value for attribute '"@ + name + "'"@,
                AttrOutcome::Unclosed { name, .. } => e.message@ == "unclosed quote for attribute '"@ + name + "'"@,
                AttrOutcome::Parsed(_) => false,
            },
        },
{
    let (a, z) = trim_bounds(s, lo, hi);
    let mut t: Vec<char> = Vec::new();
    let mut i = a;
    while i < z
        invariant
            a <= i <= z <= s@.len(),
            t@ == s@.subrange(a as int, i as int),
        decreases z - i,
    {
        t.push(s[i]);
        assert(t@ =~= s@.subrange(a as int, i + 1));
        i = i + 1;
    }
    match scan_attrs(&t) {
        Ok(v) => Ok(v),
        Err((name, unclosed, p, q)) => {
            proof {
                assert(offs@[a as int] <= offs@[(a + p) as int]);
                assert(offs@[lo as int] <= offs@[a as int]);
            }
            if unclosed {
                let msg = join3("unclosed quote for attribute '", name.as_str(), "'");
                let start = offs[lo] + (offs[a + p - 1] - offs[a]);
                let end = offs[lo] + (offs[a + q] - offs[a]);
                Err(error(msg, start, end))
            } else {
                let msg = join3("expected quoted value for attribute '", name.as_str(), "'");
                let start = offs[lo] + (offs[a + p] - offs[a]);
                Err(error(msg, start, start + 1))
            }
        },
    }
}

} // verus!
