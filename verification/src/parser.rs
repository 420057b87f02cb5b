//! The AML parser: embedded-tolerant extraction of `<skill>`, `<param>` and directive
//! tags from text, with an optional `<aml version="...">` root wrapper.
use vstd::prelude::*;

use crate::ast::{DirectiveKind, Document, Node, NodeKind, Param, Span, SpecDocument, SpecNode, Str};
use crate::attrs::{attributes_of, attrs_view, get_attr, parse_attributes, AttrOutcome};
use crate::decls::{parse_contract_body, parse_implementation_body, parse_interface_body};
use crate::grammar::{
    glue_items, item_children, items_scan, lemma_items_empty, lemma_items_push, lemma_scan_advance,
    lemma_scan_end, lemma_scan_fail, lemma_scan_start, step, BodyItem, Ctx,
};
use crate::kinds::{build_directive_kind, build_node_kind};
use crate::scan::{
    first_match, close_tag_at, decode_entities, detect_close_tag, detect_open_tag, find_from, find_next_tag_or_param,
    find_next_tag_start, find_tag_end, is_only_comments, is_tag_start_after, lit, matching_close,
    open_tag_at, opens_tag, self_closing, starts_with_at, tag_end, tag_text, TagName,
};
use crate::source::{offs_wf, source_of, span_of, SPAN_ROOM};
use crate::text::{byte_len, join3, string_of};

verus! {

/// Parse errors with source location.
#[derive(Debug, Clone, PartialEq, Eq)]
pub struct ParseError {
    pub message: String,
    pub span: Span,
}

impl ParseError {
    /// `parse error at {start}..{end}: {message}`.
    pub fn to_string(&self) -> (s: String)
        ensures
            s@ == "parse error at "@ + crate::text::decimal(self.span.start as nat) + ".."@ + crate::text::decimal(
                self.span.end as nat,
            ) + ": "@ + self.message@,
    {
        let mut s = String::from_str("parse error at ");
        s.append(crate::text::usize_to_string(self.span.start).as_str());
        s.append("..");
        s.append(crate::text::usize_to_string(self.span.end).as_str());
        s.append(": ");
        s.append(self.message.as_str());
        s
    }
}

/// An error with a message and a span.
pub fn error(message: String, start: usize, end: usize) -> (e: ParseError)
    ensures
        e.message@ == message@,
        e.span == (Span { start, end }),
{
    ParseError { message, span: Span::new(start, end) }
}


// ---------------------------------------------------------------------------
// Shared pieces
// ---------------------------------------------------------------------------

/// Adjacent text nodes have been merged.
pub open spec fn texts_merged(s: Seq<SpecNode>) -> bool {
    forall|i: int| 0 <= i < s.len() - 1 ==> !(#[trigger] s[i] is Text && s[i + 1] is Text)
}

/// `s` with each run of adjacent text nodes joined into one.
pub open spec fn merge_texts(s: Seq<SpecNode>) -> Seq<SpecNode>
    decreases s.len(),
{
    if s.len() == 0 {
        s
    } else {
        let m = merge_texts(s.drop_last());
        if s.last() is Text && m.len() > 0 && m.last() is Text {
            m.update(m.len() - 1, SpecNode::Text(m.last()->Text_0 + s.last()->Text_0))
        } else {
            m.push(s.last())
        }
    }
}

proof fn lemma_merge_texts(s: Seq<SpecNode>)
    ensures
        texts_merged(merge_texts(s)),
        s.len() > 0 ==> merge_texts(s).len() > 0 && (merge_texts(s).last() is Text <==> s.last() is Text),
    decreases s.len(),
{
    if s.len() > 0 {
        lemma_merge_texts(s.drop_last());
        let m = merge_texts(s.drop_last());
        let r = merge_texts(s);
        if s.last() is Text && m.len() > 0 && m.last() is Text {
            assert forall|i: int| 0 <= i < r.len() - 1 implies !(#[trigger] r[i] is Text && r[i + 1] is Text) by {
                assert(r[i] == m[i]);
                if i + 1 < r.len() - 1 {
                    assert(r[i + 1] == m[i + 1]);
                }
            }
        } else {
            assert forall|i: int| 0 <= i < r.len() - 1 implies !(#[trigger] r[i] is Text && r[i + 1] is Text) by {
                assert(r[i] == m[i]);
                if i + 1 < r.len() - 1 {
                    assert(r[i + 1] == m[i + 1]);
                }
            }
        }
    }
}

/// Join adjacent text nodes.
pub fn merge_text_nodes(nodes: &mut Vec<Node>)
    ensures
        Node::models(final(nodes)@) == merge_texts(Node::models(old(nodes)@)),
        texts_merged(Node::models(final(nodes)@)),
{
    let ghost orig = Node::models(nodes@);
    let mut input: Vec<Node> = Vec::new();
    std::mem::swap(&mut input, nodes);
    let mut out: Vec<Node> = Vec::new();
    let ghost mut k: int = 0;
    assert(orig.take(0) =~= Seq::<SpecNode>::empty());
    assert(Node::models(out@) =~= Seq::<SpecNode>::empty());
    assert(Node::models(input@) =~= orig.skip(0));
    while input.len() > 0
        invariant
            0 <= k <= orig.len(),
            Node::models(out@) == merge_texts(orig.take(k)),
            Node::models(input@) == orig.skip(k),
        decreases input@.len(),
    {
        let ghost before_in = input@;
        let x = input.remove(0);
        assert(x == before_in[0]);
        assert(Node::models(before_in) == orig.skip(k));
        assert(Node::models(before_in).len() == before_in.len());
        assert(k < orig.len());
        assert(x@ == orig[k]) by {
            assert(Node::models(before_in)[0] == before_in[0].model());
            assert(orig.skip(k)[0] == orig[k]);
        }
        assert(Node::models(input@) =~= orig.skip(k + 1)) by {
            assert forall|j: int| 0 <= j < input@.len() implies Node::models(input@)[j] == orig.skip(k + 1)[j] by {
                assert(input@[j] == before_in[j + 1]);
                assert(Node::models(before_in)[j + 1] == before_in[j + 1].model());
                assert(Node::models(input@)[j] == input@[j].model());
                assert(orig.skip(k)[j + 1] == orig.skip(k + 1)[j]);
            }
        }
        assert(orig.take(k + 1).drop_last() =~= orig.take(k));
        let ghost m = Node::models(out@);
        match x {
            Node::Text(t) => {
                if out.len() > 0 {
                    let last = out.pop().unwrap();
                    assert(last@ == m.last());
                    match last {
                        Node::Text(mut a) => {
                            a.append(t.as_str());
                            out.push(Node::Text(a));
                            assert(Node::models(out@) =~= m.update(m.len() - 1, SpecNode::Text(m.last()->Text_0 + x@->Text_0)));
                        },
                        other => {
                            out.push(other);
                            assert(Node::models(out@) =~= m);
                            out.push(Node::Text(t));
                            assert(Node::models(out@) =~= m.push(x@));
                        },
                    }
                } else {
                    out.push(Node::Text(t));
                    assert(Node::models(out@) =~= m.push(x@));
                }
            },
            other => {
                out.push(other);
                assert(Node::models(out@) =~= m.push(x@));
            },
        }
        proof {
            k = k + 1;
        }
    }
    assert(orig.take(k) =~= orig);
    proof {
        lemma_merge_texts(orig);
    }
    *nodes = out;
}

/// The span of an "unclosed" error: from `offs[lo]`, at most 50 bytes, within `..offs[hi]`.
fn span_upto_50(offs: &[usize], lo: usize, hi: usize) -> (r: (usize, usize))
    requires
        lo <= hi < offs@.len(),
        offs@[lo as int] <= offs@[hi as int],
        offs@[hi as int] + 50 <= usize::MAX,
    ensures
        r.0 == offs@[lo as int],
        r.1 == offs@[lo as int] + if offs@[hi as int] - offs@[lo as int] < 50 {
            offs@[hi as int] - offs@[lo as int]
        } else {
            50
        },
{
    let len = offs[hi] - offs[lo];
    let m = if len < 50 { len } else { 50 };
    (offs[lo], offs[lo] + m)
}

/// A tag name can be scanned over when looking for the tag's end.
pub open spec fn plain_name(name: Seq<char>) -> bool {
    forall|i: int|
        0 <= i < name.len() ==> name[i] != '>' && name[i] != '"' && name[i] != '\'' && name[i] != '/'
}

proof fn lemma_tag_end_past_name(s: Seq<char>, lo: int, hi: int, name: Seq<char>, j: int)
    requires
        opens_tag(s, lo, hi, name),
        plain_name(name),
        0 <= j <= name.len(),
    ensures
        tag_end(s, lo, hi) == crate::scan::tag_end_scan(s, lo + 1 + j, hi, false, '"'),
    decreases j,
{
    if j > 0 {
        lemma_tag_end_past_name(s, lo, hi, name, j - 1);
        assert(s.subrange(lo, lo + 1 + name.len())[j] == s[lo + j]);
        assert((seq!['<'] + name)[j] == name[j - 1]);
    }
}

/// The `/` of a self-closing tag comes after the tag name.
pub proof fn lemma_self_closing_past_name(s: Seq<char>, lo: int, hi: int, name: Seq<char>, e: int)
    requires
        opens_tag(s, lo, hi, name),
        plain_name(name),
        lo < e,
        e <= hi,
        s[e - 1] == '/',
    ensures
        e - 1 >= lo + 1 + name.len(),
{
    let p = lo + 1 + name.len();
    if e - 1 < p {
        if e - 1 == lo {
            assert(s.subrange(lo, p)[0] == s[lo]);
        } else {
            let j = e - 1 - lo - 1;
            assert(s.subrange(lo, p)[j + 1] == s[e - 1]);
            assert((seq!['<'] + name)[j + 1] == name[j]);
        }
    }
}

/// Tag names have none of the characters that matter when looking for a tag's end.
pub proof fn lemma_plain_names()
    ensures
        plain_name("skill"@),
        plain_name("param"@),
        plain_name("tool"@),
        plain_name("session"@),
        plain_name("agent"@),
        plain_name("returns"@),
        plain_name("reads"@),
        plain_name("writes"@),
        plain_name("field"@),
        plain_name("node"@),
        plain_name("aml"@),
{
    reveal_strlit("skill");
    reveal_strlit("param");
    reveal_strlit("tool");
    reveal_strlit("session");
    reveal_strlit("agent");
    reveal_strlit("returns");
    reveal_strlit("reads");
    reveal_strlit("writes");
    reveal_strlit("field");
    reveal_strlit("node");
    reveal_strlit("aml");
}

/// How the opening tag `<name ...>` or `<name .../>` at `lo` reads: the index of its `>`,
/// whether it closes itself, and its attributes; `None` when the tag has no end or its
/// attributes do not parse.
pub open spec fn open_tag_reading(s: Seq<char>, lo: int, hi: int, name: Seq<char>) -> Option<(int, bool, Seq<(Str, Str)>)> {
    match tag_end(s, lo, hi) {
        Some(e) => match attributes_of(s.subrange(lo + 1 + name.len(), if self_closing(s, e) { e - 1 } else { e })) {
            AttrOutcome::Parsed(a) => Some((e, self_closing(s, e), a)),
            _ => None,
        },
        None => None,
    }
}

/// The message of an opening tag `<name ...>` at `lo` that does not read: `unclosed` when
/// it has no end, else that of its attributes.
#[verifier::opaque]
pub open spec fn open_tag_error(s: Seq<char>, lo: int, hi: int, name: Seq<char>, unclosed: Str) -> Str {
    match tag_end(s, lo, hi) {
        None => unclosed,
        Some(e) => crate::attrs::attr_error(attributes_of(s.subrange(lo + 1 + name.len(), if self_closing(s, e) { e - 1 } else { e }))),
    }
}

/// The span `offs[lo]..offs[lo] + min(50, bytes to hi)` reported for an unclosed tag.
pub open spec fn upto_50(offs: Seq<usize>, lo: int, hi: int) -> (int, int) {
    (offs[lo] as int, offs[lo] + if offs[hi] - offs[lo] < 50 {
        offs[hi] - offs[lo]
    } else {
        50
    })
}

/// The error `x` reports the span `sp`, where one is stated.
pub open spec fn span_is(x: ParseError, sp: Option<(int, int)>) -> bool {
    sp matches Some((a, b)) ==> x.span.start == a && x.span.end == b
}

/// The span of an opening tag at `lo` that does not read, where it is stated: that of an
/// unclosed tag (the span of an error in the quoting of its attributes is not stated).
pub open spec fn open_tag_error_span(s: Seq<char>, offs: Seq<usize>, lo: int, hi: int) -> Option<(int, int)> {
    match tag_end(s, lo, hi) {
        None => Some(upto_50(offs, lo, hi)),
        Some(_) => None,
    }
}

/// The opening tag `<name ...>` at `lo`: the position of its `>`, whether it ends with
/// `/>`, and its attributes.
pub fn read_open_tag(s: &[char], offs: &[usize], lo: usize, hi: usize, name: &[char], unclosed: &str) -> (r: Result<(usize, bool, Vec<(String, String)>), ParseError>)
    requires
        lo <= hi <= s@.len(),
        offs_wf(s@, offs@),
        opens_tag(s@, lo as int, hi as int, name@),
        plain_name(name@),
    ensures
        match r {
            Ok((e, sc, a)) => {
                &&& open_tag_reading(s@, lo as int, hi as int, name@) == Some((e as int, sc, attrs_view(a@)))
                &&& tag_end(s@, lo as int, hi as int) == Some(e as int)
                &&& lo + 1 + name@.len() <= e < hi
                &&& sc == self_closing(s@, e as int)
                &&& sc ==> lo + 1 + name@.len() <= e - 1
                &&& attributes_of(s@.subrange(lo + 1 + name@.len(), if sc { e - 1 } else { e as int }))
                    == AttrOutcome::Parsed(attrs_view(a@))
            },
            Err(err) => open_tag_reading(s@, lo as int, hi as int, name@) is None && span_is(err, open_tag_error_span(
                s@,
                offs@,
                lo as int,
                hi as int,
            )) && err.message@ == open_tag_error(
                s@,
                lo as int,
                hi as int,
                name@,
                unclosed@,
            ) && (tag_end(s@, lo as int, hi as int)
                is None ==> err.message@ == unclosed@ && err.span.start == offs@[lo as int] && err.span.end == offs@[lo as int]
                + if offs@[hi as int] - offs@[lo as int] < 50 {
                offs@[hi as int] - offs@[lo as int]
            } else {
                50
            }),
        },
{
    proof {
        reveal(open_tag_error);
    }
    proof {
        lemma_tag_end_past_name(s@, lo as int, hi as int, name@, name@.len() as int);
        crate::scan::lemma_tag_end_scan_range(s@, lo + 1 + name@.len(), hi as int, false, '"');
        assert(offs@[lo as int] <= offs@[hi as int]);
    }
    let e = match find_tag_end(s, lo, hi) {
        Some(e) => e,
        None => {
            let (a, b) = span_upto_50(offs, lo, hi);
            return Err(error(String::from_str(unclosed), a, b));
        },
    };
    let p = lo + 1 + name.len();
    let sc = s[e - 1] == '/';
    if sc {
        proof {
            lemma_self_closing_past_name(s@, lo as int, hi as int, name@, e as int);
        }
    }
    let a_hi = if sc { e - 1 } else { e };
    let attrs = parse_attributes(s, p, a_hi, offs)?;
    Ok((e, sc, attrs))
}

/// The position of the close tag matching the open tag `<name` whose content starts at
/// `lo`; an error when there is none.
pub fn find_matching_close(name: &[char], s: &[char], offs: &[usize], lo: usize, hi: usize) -> (r: Result<usize, ParseError>)
    requires
        lo <= hi <= s@.len(),
        offs_wf(s@, offs@),
    ensures
        match r {
            Ok(c) => opt_int_eq(crate::scan::close_scan(s@, lo as int, hi as int, name@, 1), c)
                && lo <= c && c + name@.len() + 3 <= hi,
            Err(e) => crate::scan::close_scan(s@, lo as int, hi as int, name@, 1) is None
                && e.message@ == "unclosed <"@ + name@ + "> tag \u{2014} no matching </"@ + name@ + ">"@
                && span_is(e, Some(upto_50(offs@, lo as int, hi as int))),
        },
{
    proof {
        assert(offs@[lo as int] <= offs@[hi as int]);
        assert(offs@[hi as int] <= offs@[s@.len() as int]);
        crate::text::lemma_char_count_le_bytes(s@);
    }
    match matching_close(s, lo, hi, name) {
        Some(c) => Ok(c),
        None => {
            let n = string_of(name, 0, name.len());
            assert(name@.subrange(0, name@.len() as int) =~= name@);
            let mut msg = join3("unclosed <", n.as_str(), "> tag \u{2014} no matching </");
            msg.append(n.as_str());
            msg.append(">");
            let (a, b) = span_upto_50(offs, lo, hi);
            Err(error(msg, a, b))
        },
    }
}

pub open spec fn opt_int_eq(o: Option<int>, c: usize) -> bool {
    o == Some(c as int)
}


/// A text node holding `s[a..b]`.
pub fn raw_text(s: &[char], a: usize, b: usize) -> (n: Node)
    requires
        a <= b <= s@.len(),
    ensures
        n@ == SpecNode::Text(s@.subrange(a as int, b as int)),
{
    Node::Text(string_of(s, a, b))
}

/// A text node holding `s[a..b]` with its character entities decoded.
pub fn decoded_text(s: &[char], a: usize, b: usize) -> (n: Node)
    requires
        a <= b <= s@.len(),
    ensures
        n@ == SpecNode::Text(crate::scan::decode(s@.subrange(a as int, b as int))),
{
    let v = decode_entities(s, a, b);
    let t = string_of(v.as_slice(), 0, v.len());
    assert(v@.subrange(0, v@.len() as int) =~= v@);
    Node::Text(t)
}

/// The common preconditions of the parsing functions: a region `lo..hi` of the source
/// `s`, whose byte offsets are `offs`.
pub open spec fn region_ok(s: Seq<char>, offs: Seq<usize>, lo: int, hi: int) -> bool {
    &&& 0 <= lo <= hi <= s.len()
    &&& offs_wf(s, offs)
}

/// The node that a tag parser returns spans the bytes from `offs[lo]` to `offs[end]`.
pub open spec fn spans_from(n: SpecNode, offs: Seq<usize>, lo: int, end: int) -> bool {
    n.span() == Some(Span { start: offs[lo], end: offs[end] })
}

/// Parse the nodes of `s[lo..hi]`: text, comments (dropped), skill and directive tags.
pub fn parse_nodes(s: &[char], offs: &[usize], lo: usize, hi: usize) -> (r: Result<Vec<Node>, ParseError>)
    requires
        region_ok(s@, offs@, lo as int, hi as int),
    ensures
        match r {
            Ok(v) => crate::grammar::nodes_of(s@, offs@, lo as int, hi as int) == Some(Node::models(v@)),
            Err(x) => crate::grammar::nodes_of(s@, offs@, lo as int, hi as int) is None && span_is(x, crate::grammar::scan_error_span(Ctx::Plain, s@, offs@, lo as int, hi as int)) && x.message@
                == crate::grammar::scan_error(Ctx::Plain, s@, offs@, lo as int, hi as int),
        },
        r matches Ok(v) ==> texts_merged(Node::models(v@)),
    decreases hi - lo, 5nat,
{
    scan_nodes(Ctx::Plain, s, offs, lo, hi)
}

/// Scan `s[lo..hi]` in a context that yields only nodes (top-level content, or an
/// invocation's content), adjacent texts merged.
fn scan_nodes(ctx: Ctx, s: &[char], offs: &[usize], lo: usize, hi: usize) -> (r: Result<Vec<Node>, ParseError>)
    requires
        region_ok(s@, offs@, lo as int, hi as int),
        ctx is Plain || ctx is Invocation,
    ensures
        match r {
            Ok(v) => (items_scan(ctx, s@, offs@, lo as int, hi as int) matches Some(items) && Node::models(v@)
                == merge_texts(item_children(items))),
            Err(x) => items_scan(ctx, s@, offs@, lo as int, hi as int) is None && span_is(x, crate::grammar::scan_error_span(
                ctx,
                s@,
                offs@,
                lo as int,
                hi as int,
            )) && x.message@ == crate::grammar::scan_error(
                ctx,
                s@,
                offs@,
                lo as int,
                hi as int,
            ),
        },
        r matches Ok(v) ==> texts_merged(Node::models(v@)),
    decreases hi - lo, 4nat,
{
    proof {
        lemma_scan_start(ctx, s@, offs@, lo as int, hi as int);
        lemma_items_empty();
    }
    let mut nodes: Vec<Node> = Vec::new();
    let ghost mut acc: Seq<BodyItem> = Seq::empty();
    assert(Node::models(nodes@) =~= item_children(acc));
    let mut pos = lo;
    while pos < hi
        invariant
            region_ok(s@, offs@, lo as int, hi as int),
            lo <= pos <= hi,
            ctx is Plain || ctx is Invocation,
            items_scan(ctx, s@, offs@, lo as int, hi as int) == glue_items(acc, items_scan(ctx, s@, offs@, pos as int, hi as int)),
            crate::grammar::scan_error(ctx, s@, offs@, lo as int, hi as int) == crate::grammar::scan_error(
                ctx,
                s@,
                offs@,
                pos as int,
                hi as int,
            ),
            crate::grammar::scan_error_span(ctx, s@, offs@, lo as int, hi as int) == crate::grammar::scan_error_span(
                ctx,
                s@,
                offs@,
                pos as int,
                hi as int,
            ),
            Node::models(nodes@) == item_children(acc),
        decreases hi - pos,
    {
        let ghost p0 = pos as int;
        let res = if let Ctx::Plain = ctx {
            plain_step(s, offs, pos, hi, &mut nodes, Ghost(acc))
        } else {
            invocation_step(s, offs, pos, hi, &mut nodes, Ghost(acc))
        };
        match res {
            Ok((next, xs)) => {
                proof {
                    lemma_scan_advance(ctx, s@, offs@, p0, hi as int, next as int, xs@, acc);
                    acc = acc + xs@;
                }
                pos = next;
            },
            Err(err) => {
                proof {
                    lemma_scan_fail(ctx, s@, offs@, p0, hi as int);
                }
                return Err(err);
            },
        }
    }
    proof {
        lemma_scan_end(ctx, s@, offs@, pos as int, hi as int, acc);
    }
    merge_text_nodes(&mut nodes);
    Ok(nodes)
}

/// Add a child node to the nodes gathered so far.
fn push_child(nodes: &mut Vec<Node>, n: Node, next: usize, Ghost(acc): Ghost<Seq<BodyItem>>) -> (r: Result<(usize, Ghost<Seq<BodyItem>>), ParseError>)
    requires
        Node::models(old(nodes)@) == item_children(acc),
    ensures
        r matches Ok((k, xs)) && k == next && xs@ == seq![BodyItem::Child(n@)] && Node::models(final(nodes)@)
            == item_children(acc + xs@),
{
    let ghost x = BodyItem::Child(n@);
    nodes.push(n);
    proof {
        lemma_items_push(acc, x);
        assert(acc + seq![x] =~= acc.push(x));
        assert(Node::models(nodes@) =~= Node::models(old(nodes)@).push(x->Child_0));
    }
    let g: Ghost<Seq<BodyItem>> = Ghost(Seq::empty().push(x));
    assert(g@ =~= seq![x]);
    Ok((next, g))
}

/// One step of a top-level scan at `pos`.
#[verifier::rlimit(100)]
#[verifier::spinoff_prover]
fn plain_step(s: &[char], offs: &[usize], pos: usize, hi: usize, nodes: &mut Vec<Node>, Ghost(acc): Ghost<Seq<BodyItem>>) -> (r: Result<(usize, Ghost<Seq<BodyItem>>), ParseError>)
    requires
        region_ok(s@, offs@, pos as int, hi as int),
        pos < hi,
        Node::models(old(nodes)@) == item_children(acc),
    ensures
        match r {
            Ok((next, xs)) => pos < next <= hi && step(Ctx::Plain, s@, offs@, pos as int, hi as int) == Some((xs@, next as int))
                && Node::models(final(nodes)@) == item_children(acc + xs@),
            Err(x) => step(Ctx::Plain, s@, offs@, pos as int, hi as int) is None && span_is(x, crate::grammar::step_error_span(
                Ctx::Plain,
                s@,
                offs@,
                pos as int,
                hi as int,
            )) && x.message@ == crate::grammar::step_error(
                Ctx::Plain,
                s@,
                offs@,
                pos as int,
                hi as int,
            ),
        },
    decreases hi - pos, 3nat,
{
    proof {
        reveal_strlit("<!--");
        reveal_strlit("-->");
        reveal_strlit(">");
        reveal_with_fuel(step, 2);
        assert(acc + Seq::<BodyItem>::empty() =~= acc);
    }
    let comment_open = lit("<!--");
    let comment_close = lit("-->");
    let gt = lit(">");
    proof {
        if !crate::scan::starts_at(s@, pos as int, hi as int, "<!--"@) {
            crate::grammar::lemma_step_error_of(Ctx::Plain, s@, offs@, pos as int, hi as int);
        }
    }
    if starts_with_at(s, pos, hi, &comment_open) {
        return match find_from(s, pos, hi, &comment_close) {
            Some(e) => {
                let g: Ghost<Seq<BodyItem>> = Ghost(Seq::empty());
                Ok((e + 3, g))
            },
            None => push_child(nodes, raw_text(s, pos, hi), hi, Ghost(acc)),
        };
    }
    if let Some(ct) = detect_close_tag(s, pos, hi) {
        // a stray closing tag is kept as text
        let close_str = join3("</", ct.as_str(), ">");
        let next = pos + ct.len() + 3;
        return push_child(nodes, Node::Text(close_str), next, Ghost(acc));
    }
    match detect_open_tag(s, pos, hi) {
        Some(TagName::Skill) => {
            let (node, end) = parse_skill_tag(s, offs, pos, hi)?;
            push_child(nodes, node, end, Ghost(acc))
        },
        Some(TagName::Param) => {
            // a stray param outside a skill is text up to `>`
            match find_from(s, pos, hi, &gt) {
                Some(e) => push_child(nodes, raw_text(s, pos, e + 1), e + 1, Ghost(acc)),
                None => push_child(nodes, raw_text(s, pos, hi), hi, Ghost(acc)),
            }
        },
        Some(tag) => {
            let (node, end) = parse_directive_tag(tag, s, offs, pos, hi)?;
            push_child(nodes, node, end, Ghost(acc))
        },
        None => {
            let text_end = match find_next_tag_start(s, pos, hi) {
                Some(i) => i,
                None => hi,
            };
            if text_end > pos {
                push_child(nodes, decoded_text(s, pos, text_end), text_end, Ghost(acc))
            } else {
                push_child(nodes, raw_text(s, pos, pos + 1), pos + 1, Ghost(acc))
            }
        },
    }
}

/// One step of a scan of an invocation's content at `pos`: its `<param>` tags are skipped.
fn invocation_step(s: &[char], offs: &[usize], pos: usize, hi: usize, nodes: &mut Vec<Node>, Ghost(acc): Ghost<Seq<BodyItem>>) -> (r: Result<(usize, Ghost<Seq<BodyItem>>), ParseError>)
    requires
        region_ok(s@, offs@, pos as int, hi as int),
        pos < hi,
        Node::models(old(nodes)@) == item_children(acc),
    ensures
        match r {
            Ok((next, xs)) => pos < next <= hi && step(Ctx::Invocation, s@, offs@, pos as int, hi as int) == Some((xs@, next as int))
                && Node::models(final(nodes)@) == item_children(acc + xs@),
            Err(x) => step(Ctx::Invocation, s@, offs@, pos as int, hi as int) is None && span_is(x, crate::grammar::step_error_span(
                Ctx::Invocation,
                s@,
                offs@,
                pos as int,
                hi as int,
            )) && x.message@ == crate::grammar::step_error(
                Ctx::Invocation,
                s@,
                offs@,
                pos as int,
                hi as int,
            ),
        },
    decreases hi - pos, 3nat,
{
    proof {
        reveal_strlit("<!--");
        reveal_strlit("-->");
        reveal_strlit("</param>");
        reveal_with_fuel(step, 2);
        assert(acc + Seq::<BodyItem>::empty() =~= acc);
    }
    let comment_open = lit("<!--");
    let comment_close = lit("-->");
    let param_close = lit("</param>");
    proof {
        if !crate::scan::starts_at(s@, pos as int, hi as int, "<!--"@) {
            crate::grammar::lemma_step_error_of(Ctx::Invocation, s@, offs@, pos as int, hi as int);
        }
    }
    if starts_with_at(s, pos, hi, &comment_open) {
        return match find_from(s, pos, hi, &comment_close) {
            Some(e) => {
                let g: Ghost<Seq<BodyItem>> = Ghost(Seq::empty());
                Ok((e + 3, g))
            },
            None => push_child(nodes, raw_text(s, pos, hi), hi, Ghost(acc)),
        };
    }
    match detect_open_tag(s, pos, hi) {
        Some(TagName::Param) => {
            // parameters were extracted already
            let next = match find_from(s, pos, hi, &param_close) {
                Some(c) => c + 8,
                None => pos + 1,
            };
            let g: Ghost<Seq<BodyItem>> = Ghost(Seq::empty());
            Ok((next, g))
        },
        Some(TagName::Skill) => {
            let (node, end) = parse_skill_tag(s, offs, pos, hi)?;
            push_child(nodes, node, end, Ghost(acc))
        },
        Some(tag) => {
            let (node, end) = parse_directive_tag(tag, s, offs, pos, hi)?;
            push_child(nodes, node, end, Ghost(acc))
        },
        None => {
            let text_end = match find_next_tag_or_param(s, pos, hi) {
                Some(i) => i,
                None => hi,
            };
            if text_end > pos {
                push_child(nodes, decoded_text(s, pos, text_end), text_end, Ghost(acc))
            } else {
                push_child(nodes, raw_text(s, pos, pos + 1), pos + 1, Ghost(acc))
            }
        },
    }
}

/// Parse the `<skill ...>` tag at `lo`: its kind, parameters, children or definition body.
/// Returns the node and the position just after the tag.
pub fn parse_skill_tag(s: &[char], offs: &[usize], lo: usize, hi: usize) -> (r: Result<(Node, usize), ParseError>)
    requires
        region_ok(s@, offs@, lo as int, hi as int),
        open_tag_at(s@, lo as int, hi as int) == Some(TagName::Skill),
    ensures
        match r {
            Ok((n, end)) => lo < end <= hi && spans_from(n@, offs@, lo as int, end as int)
                && crate::grammar::skill_tag_of(s@, offs@, lo as int, hi as int) == Some((n@, end as int)),
            Err(x) => crate::grammar::skill_tag_of(s@, offs@, lo as int, hi as int) is None && span_is(x, crate::grammar::skill_tag_error_span(s@, offs@, lo as int, hi as int)) && x.message@
                == crate::grammar::skill_tag_error(s@, offs@, lo as int, hi as int),
        },
    decreases hi - lo, 0nat,
{
    proof {
        lemma_plain_names();
        reveal_strlit("skill");
        assert(offs@[lo as int] <= offs@[s@.len() as int]);
    }
    let name = lit("skill");
    let (e, sc, attrs) = read_open_tag(s, offs, lo, hi, name.as_slice(), "unclosed opening tag")?;
    let kind = build_node_kind(&attrs, offs[lo])?;
    if sc {
        let end = e + 1;
        let params: Vec<Param> = Vec::new();
        let children: Vec<Node> = Vec::new();
        assert(Node::models(children@) =~= Seq::<SpecNode>::empty());
        assert(params.deep_view() =~= Seq::<crate::ast::SpecParam>::empty());
        return Ok((Node::Skill { kind, params, children, span: span_of(offs, lo, end) }, end));
    }
    let cs = e + 1;
    let ce = find_matching_close(name.as_slice(), s, offs, cs, hi)?;
    let end = ce + 8;
    let span = span_of(offs, lo, end);
    match kind {
        NodeKind::InterfaceDefinition { name, extends, legacy_implements, description, .. } => {
            let body = parse_interface_body(s, offs, cs, ce)?;
            let kind = NodeKind::InterfaceDefinition {
                name,
                extends,
                legacy_implements,
                description,
                params: body.params,
                return_decls: body.return_decls,
                reads: body.reads,
                writes: body.writes,
                skill_refs: body.skill_refs,
                tool_constraints: body.tool_constraints,
            };
            let params: Vec<Param> = Vec::new();
            assert(params.deep_view() =~= Seq::<crate::ast::SpecParam>::empty());
            Ok((Node::Skill { kind, params, children: body.children, span }, end))
        },
        NodeKind::ContractDefinition { name, extends, version, description, .. } => {
            let body = parse_contract_body(s, offs, cs, ce)?;
            let kind = NodeKind::ContractDefinition { name, extends, version, description, fields: body.fields };
            let params: Vec<Param> = Vec::new();
            assert(params.deep_view() =~= Seq::<crate::ast::SpecParam>::empty());
            Ok((Node::Skill { kind, params, children: body.children, span }, end))
        },
        NodeKind::ImplementationDefinition { name, implements, language, framework, description, .. } => {
            let body = parse_implementation_body(s, offs, cs, ce)?;
            let kind = NodeKind::ImplementationDefinition {
                name,
                implements,
                language,
                framework,
                description,
                nodes: body.nodes,
                skill_refs: body.skill_refs,
            };
            let params: Vec<Param> = Vec::new();
            assert(params.deep_view() =~= Seq::<crate::ast::SpecParam>::empty());
            Ok((Node::Skill { kind, params, children: body.children, span }, end))
        },
        NodeKind::Invocation { .. } => {
            let params = extract_params(s, offs, cs, ce)?;
            let children = parse_children_excluding_params(s, offs, cs, ce)?;
            Ok((Node::Skill { kind, params, children, span }, end))
        },
    }
}

/// Parse the directive tag (`<tool>`, `<session>` or `<agent>`) at `lo`.
pub fn parse_directive_tag(tag_name: TagName, s: &[char], offs: &[usize], lo: usize, hi: usize) -> (r: Result<(Node, usize), ParseError>)
    requires
        region_ok(s@, offs@, lo as int, hi as int),
        open_tag_at(s@, lo as int, hi as int) == Some(tag_name),
    ensures
        match r {
            Ok((n, end)) => lo < end <= hi && spans_from(n@, offs@, lo as int, end as int)
                && crate::grammar::directive_tag_of(tag_name, s@, offs@, lo as int, hi as int) == Some((n@, end as int)),
            Err(x) => crate::grammar::directive_tag_of(tag_name, s@, offs@, lo as int, hi as int) is None && span_is(x, crate::grammar::directive_tag_error_span(tag_name, s@, offs@, lo as int, hi as int)) && x.message@
                == crate::grammar::directive_tag_error(tag_name, s@, offs@, lo as int, hi as int),
        },
    decreases hi - lo, 1nat,
{
    proof {
        lemma_plain_names();
        assert(offs@[lo as int] <= offs@[s@.len() as int]);
    }
    let name = tag_name.chars();
    let unclosed = join3("unclosed <", tag_name.as_str(), "> opening tag");
    let (e, sc, attrs) = read_open_tag(s, offs, lo, hi, name.as_slice(), unclosed.as_str())?;
    let kind = build_directive_kind(tag_name, &attrs, offs[lo])?;
    if sc {
        let end = e + 1;
        let children: Vec<Node> = Vec::new();
        assert(Node::models(children@) =~= Seq::<SpecNode>::empty());
        return Ok((Node::Directive { kind, children, span: span_of(offs, lo, end) }, end));
    }
    let cs = e + 1;
    let ce = find_matching_close(name.as_slice(), s, offs, cs, hi)?;
    let children = parse_nodes(s, offs, cs, ce)?;
    let end = ce + tag_name.len() + 3;
    Ok((Node::Directive { kind, children, span: span_of(offs, lo, end) }, end))
}

/// Parse the children of an invocation, leaving out its `<param>` tags.
pub fn parse_children_excluding_params(s: &[char], offs: &[usize], lo: usize, hi: usize) -> (r: Result<Vec<Node>, ParseError>)
    requires
        region_ok(s@, offs@, lo as int, hi as int),
    ensures
        match r {
            Ok(v) => (items_scan(Ctx::Invocation, s@, offs@, lo as int, hi as int) matches Some(items)
                && Node::models(v@) == merge_texts(item_children(items))),
            Err(x) => items_scan(Ctx::Invocation, s@, offs@, lo as int, hi as int) is None && span_is(x, crate::grammar::scan_error_span(Ctx::Invocation, s@, offs@, lo as int, hi as int)) && x.message@
                == crate::grammar::scan_error(Ctx::Invocation, s@, offs@, lo as int, hi as int),
        },
        r matches Ok(v) ==> texts_merged(Node::models(v@)),
    decreases hi - lo, 5nat,
{
    scan_nodes(Ctx::Invocation, s, offs, lo, hi)
}

/// Extract the `<param name="...">value</param>` tags of an invocation's content.
pub fn extract_params(s: &[char], offs: &[usize], lo: usize, hi: usize) -> (r: Result<Vec<Param>, ParseError>)
    requires
        region_ok(s@, offs@, lo as int, hi as int),
    ensures
        match r {
            Ok(v) => crate::grammar::params_in(s@, offs@, lo as int, hi as int) == Some(v.deep_view()),
            Err(x) => crate::grammar::params_in(s@, offs@, lo as int, hi as int) is None && span_is(x, crate::grammar::params_error_span(s@, offs@, lo as int, hi as int)) && x.message@
                == crate::grammar::params_error(s@, lo as int, hi as int),
        },
{
    proof {
        reveal_strlit(">");
        reveal_strlit("</param>");
        reveal_strlit("param");
        assert(offs@[hi as int] <= offs@[s@.len() as int]);
    }
    let gt = lit(">");
    let param_close = lit("</param>");
    let mut params: Vec<Param> = Vec::new();
    let mut pos = lo;
    proof {
        match crate::grammar::params_in(s@, offs@, lo as int, hi as int) {
            Some(rest) => {
                assert(params.deep_view() + rest =~= rest);
            },
            None => {},
        }
    }
    while pos < hi
        invariant
            region_ok(s@, offs@, lo as int, hi as int),
            lo <= pos <= hi,
            gt@ == ">"@,
            gt@.len() == 1,
            param_close@ == "</param>"@,
            param_close@.len() == 8,
            "param"@.len() == 5,
            offs@[hi as int] <= offs@[s@.len() as int],
            crate::grammar::params_in(s@, offs@, lo as int, hi as int) == match crate::grammar::params_in(
                s@,
                offs@,
                pos as int,
                hi as int,
            ) {
                Some(rest) => Some(params.deep_view() + rest),
                None => None,
            },
            crate::grammar::params_error(s@, lo as int, hi as int) == crate::grammar::params_error(s@, pos as int, hi as int),
            crate::grammar::params_error_span(s@, offs@, lo as int, hi as int) == crate::grammar::params_error_span(
                s@,
                offs@,
                pos as int,
                hi as int,
            ),
        decreases hi - pos,
    {
        if detect_open_tag(s, pos, hi) == Some(TagName::Param) {
            let te = match find_from(s, pos + 6, hi, &gt) {
                Some(t) => t,
                None => {
                    return Err(error(String::from_str("unclosed <param> tag"), offs[pos], offs[pos] + 10));
                },
            };
            let attrs = parse_attributes(s, pos + 6, te, offs)?;
            let name = match get_attr(&attrs, "name") {
                Some(n) => n,
                None => {
                    return Err(
                        error(String::from_str("<param> missing 'name' attribute"), offs[pos], offs[te + 1]),
                    );
                },
            };
            let cs = te + 1;
            let ce = match find_from(s, cs, hi, &param_close) {
                Some(c) => c,
                None => {
                    return Err(error(String::from_str("unclosed <param> tag"), offs[pos], offs[cs]));
                },
            };
            let v = decode_entities(s, cs, ce);
            let value = string_of(v.as_slice(), 0, v.len());
            assert(v@.subrange(0, v@.len() as int) =~= v@);
            let end = ce + 8;
            let ghost before = params.deep_view();
            let ghost p0 = pos as int;
            let p = Param { name, value, span: span_of(offs, pos, end) };
            let ghost pv = p@;
            params.push(p);
            pos = end;
            proof {
                assert(params.deep_view() =~= before.push(pv));
                match crate::grammar::params_in(s@, offs@, pos as int, hi as int) {
                    Some(rest) => {
                        assert(before + (seq![pv] + rest) =~= before.push(pv) + rest);
                    },
                    None => {},
                }
            }
        } else {
            pos = pos + 1;
        }
    }
    assert(params.deep_view() + Seq::<crate::ast::SpecParam>::empty() =~= params.deep_view());
    Ok(params)
}


/// The text holds an `<aml` root tag: the first `<aml` is followed by a tag-start character.
pub open spec fn has_aml_root(s: Seq<char>) -> bool {
    first_match(s, 0, s.len() as int, "<aml"@) matches Some(i) && crate::scan::tag_start_after(s, i + 4, s.len() as int)
}

/// An `<aml` tag (followed by a tag-start character) starts at `i`.
pub open spec fn aml_tag_at(s: Seq<char>, i: int, hi: int) -> bool {
    crate::scan::starts_at(s, i, hi, "<aml"@) && crate::scan::tag_start_after(s, i + 4, hi)
}

/// The first attribute of `a` other than `version`.
pub open spec fn first_other_attr(a: Seq<(Str, Str)>) -> int {
    choose|k: int| 0 <= k < a.len() && a[k].0 != "version"@ && forall|j: int| 0 <= j < k ==> a[j].0 == "version"@
}

/// The first `<aml` tag in `lo..hi`.
pub open spec fn first_aml_tag(s: Seq<char>, lo: int, hi: int) -> int {
    choose|j: int| lo <= j < hi && aml_tag_at(s, j, hi) && forall|i: int| lo <= i < j ==> !aml_tag_at(s, i, hi)
}

/// A parse error that lies with the `<aml>` root wrapper itself, as its message and the
/// byte span it reports (`offs` giving the byte offset of each character): content before
/// or after the wrapper, a second or nested `<aml>` tag, an opening tag that is not closed,
/// a missing `version`, another attribute, or no `</aml>`. `None` where there is no such
/// error; an error in the quoting of its attributes or in its content is not one of these.
#[verifier::opaque]
pub open spec fn root_error(s: Seq<char>, offs: Seq<usize>) -> Option<(Str, int, int)> {
    let n = s.len() as int;
    let nested = "<aml> cannot appear nested inside other content; it is only valid as a root wrapper"@;
    match first_match(s, 0, n, "<aml"@) {
        None => None,
        Some(i) => if !crate::scan::tag_start_after(s, i + 4, n) {
            if exists|j: int| 0 <= j < n && aml_tag_at(s, j, n) {
                let j = first_aml_tag(s, 0, n);
                Some((nested, offs[j] as int, offs[j] + 20))
            } else {
                None
            }
        } else if !crate::scan::only_comments(s.subrange(0, i)) {
            Some(("non-whitespace content before <aml> root wrapper is not allowed"@, 0, offs[i] as int))
        } else if tag_end(s, i, n) is None {
            Some((
                "unclosed <aml> opening tag"@,
                offs[i] as int,
                offs[i] + if offs[n] - offs[i] < 50 {
                    offs[n] - offs[i]
                } else {
                    50
                },
            ))
        } else {
            match open_tag_reading(s, i, n, "aml"@) {
                None => None,
                Some((e, sc, a)) => if crate::attrs::attr_get(a, "version"@) is None {
                    Some(("<aml> requires 'version' attribute"@, offs[i] as int, offs[e + 1] as int))
                } else if exists|k: int| 0 <= k < a.len() && a[k].0 != "version"@ {
                    Some((
                        "<aml> does not support '"@ + a[first_other_attr(a)].0 + "' attribute (only 'version' is allowed)"@,
                        offs[i] as int,
                        offs[e + 1] as int,
                    ))
                } else if sc {
                    if crate::scan::only_comments(s.subrange(e + 1, n)) {
                        None
                    } else {
                        Some((
                            "non-whitespace content after <aml/> root wrapper is not allowed"@,
                            offs[e + 1] as int,
                            offs[n] as int,
                        ))
                    }
                } else {
                    match first_match(s, e + 1, n, "</aml>"@) {
                        None => Some(("unclosed <aml> tag \u{2014} missing </aml>"@, offs[i] as int, offs[n] as int)),
                        Some(c) => if exists|j: int| e + 1 <= j < c && aml_tag_at(s, j, c) {
                            let j = first_aml_tag(s, e + 1, c);
                            Some((nested, offs[j] as int, offs[j] + 20))
                        } else if !crate::scan::only_comments(s.subrange(c + 6, n)) {
                            Some(("non-whitespace content after </aml> is not allowed"@, offs[c + 6] as int, offs[n] as int))
                        } else {
                            match first_match(s, c + 6, n, "<aml"@) {
                                Some(k) => if crate::scan::tag_start_after(s, k + 4, n) {
                                    Some(("multiple <aml> root wrappers are not allowed"@, offs[k] as int, offs[k] + 20))
                                } else {
                                    None
                                },
                                None => None,
                            }
                        },
                    }
                },
            }
        },
    }
}

/// The message of an error inside a well-formed `<aml>` root wrapper: in the quoting of its
/// attributes, or in its content.
pub open spec fn root_content_error(s: Seq<char>, offs: Seq<usize>) -> Str {
    let n = s.len() as int;
    let i = first_match(s, 0, n, "<aml"@).unwrap();
    match open_tag_reading(s, i, n, "aml"@) {
        None => open_tag_error(s, i, n, "aml"@, "unclosed <aml> opening tag"@),
        Some((e, _, _)) => match first_match(s, e + 1, n, "</aml>"@) {
            Some(c) => crate::grammar::scan_error(Ctx::Plain, s, offs, e + 1, c),
            None => Seq::empty(),
        },
    }
}

/// The message of a parse of `s` that fails: that of the root wrapper, else that of an
/// error inside it, else that of the first step of the scan of the whole text that fails.
#[verifier::opaque]
pub open spec fn parse_error_message(s: Seq<char>, offs: Seq<usize>) -> Str {
    match root_error(s, offs) {
        Some((m, _, _)) => m,
        None => if has_aml_root(s) {
            root_content_error(s, offs)
        } else {
            crate::grammar::scan_error(Ctx::Plain, s, offs, 0, s.len() as int)
        },
    }
}

/// The span of an error inside a well-formed `<aml>` root wrapper, where it is stated.
pub open spec fn root_content_error_span(s: Seq<char>, offs: Seq<usize>) -> Option<(int, int)> {
    let n = s.len() as int;
    let i = first_match(s, 0, n, "<aml"@).unwrap();
    match open_tag_reading(s, i, n, "aml"@) {
        None => open_tag_error_span(s, offs, i, n),
        Some((e, _, _)) => match first_match(s, e + 1, n, "</aml>"@) {
            Some(c) => crate::grammar::scan_error_span(Ctx::Plain, s, offs, e + 1, c),
            None => None,
        },
    }
}

/// The span of a parse of `s` that fails, where it is stated (it is not for an error in the
/// quoting of attributes).
#[verifier::opaque]
pub open spec fn parse_error_span(s: Seq<char>, offs: Seq<usize>) -> Option<(int, int)> {
    match root_error(s, offs) {
        Some((_, a, b)) => Some((a, b)),
        None => if has_aml_root(s) {
            root_content_error_span(s, offs)
        } else {
            crate::grammar::scan_error_span(Ctx::Plain, s, offs, 0, s.len() as int)
        },
    }
}

/// What the `<aml version="...">` root wrapper of `s` yields: `None` when `s` has no such
/// tag, `Some(Some(document))` for a wrapper that parses (its content, or nothing for a
/// self-closing one, as the document's nodes), `Some(None)` for one that does not.
pub open spec fn aml_root_of(s: Seq<char>, offs: Seq<usize>) -> Option<Option<SpecDocument>> {
    let n = s.len() as int;
    match first_match(s, 0, n, "<aml"@) {
        None => None,
        Some(i) => if !crate::scan::tag_start_after(s, i + 4, n) {
            None
        } else if !crate::scan::only_comments(s.subrange(0, i)) {
            Some(None)
        } else {
            match open_tag_reading(s, i, n, "aml"@) {
                None => Some(None),
                Some((e, sc, a)) => match crate::attrs::attr_get(a, "version"@) {
                    None => Some(None),
                    Some(v) => if exists|k: int| 0 <= k < a.len() && a[k].0 != "version"@ {
                        Some(None)
                    } else if sc {
                        if crate::scan::only_comments(s.subrange(e + 1, n)) {
                            Some(Some(SpecDocument { version: Some(v), nodes: Seq::empty() }))
                        } else {
                            Some(None)
                        }
                    } else {
                        match first_match(s, e + 1, n, "</aml>"@) {
                            None => Some(None),
                            Some(c) => if exists|j: int| e + 1 <= j < c && aml_tag_at(s, j, c) {
                                Some(None)
                            } else if !crate::scan::only_comments(s.subrange(c + 6, n)) {
                                Some(None)
                            } else if first_match(s, c + 6, n, "<aml"@) matches Some(k) && crate::scan::tag_start_after(
                                s,
                                k + 4,
                                n,
                            ) {
                                Some(None)
                            } else {
                                match crate::grammar::nodes_of(s, offs, e + 1, c) {
                                    Some(ns) => Some(Some(SpecDocument { version: Some(v), nodes: ns })),
                                    None => Some(None),
                                }
                            },
                        }
                    },
                },
            }
        },
    }
}

/// The document `s` parses to: the root wrapper's when there is one, else the nodes of
/// the whole text, which may hold no `<aml` tag; `None` when it does not parse.
pub open spec fn document_of(s: Seq<char>, offs: Seq<usize>) -> Option<SpecDocument> {
    match aml_root_of(s, offs) {
        Some(r) => r,
        None => if exists|j: int| 0 <= j < s.len() && aml_tag_at(s, j, s.len() as int) {
            None
        } else {
            match crate::grammar::nodes_of(s, offs, 0, s.len() as int) {
                Some(ns) => Some(SpecDocument { version: None, nodes: ns }),
                None => None,
            }
        },
    }
}

/// The byte offset of each character of `s`, and its byte length last.
pub open spec fn byte_offsets(s: Seq<char>) -> Seq<usize> {
    Seq::new((s.len() + 1) as nat, |i: int| byte_len(s.take(i)) as usize)
}

/// Well-formed offsets are the byte offsets.
pub proof fn lemma_offsets_unique(s: Seq<char>, offs: Seq<usize>)
    requires
        offs_wf(s, offs),
    ensures
        offs == byte_offsets(s),
{
    assert forall|i: int| 0 <= i < offs.len() implies offs[i] == byte_offsets(s)[i] by {
        assert(offs[i] == byte_len(s.take(i)));
    }
    assert(offs =~= byte_offsets(s));
}

/// `p` starts with `<` and `s` holds no `<`: `p` occurs nowhere in `s`.
proof fn lemma_no_lt_no_match(s: Seq<char>, i: int, hi: int, p: Seq<char>)
    requires
        forall|k: int| 0 <= k < s.len() ==> s[k] != '<',
        p.len() > 0,
        p[0] == '<',
    ensures
        !crate::scan::starts_at(s, i, hi, p),
{
    if crate::scan::starts_at(s, i, hi, p) {
        assert(s.subrange(i, i + p.len())[0] == s[i]);
    }
}

/// Without `<`, a search for a text that starts with `<` finds nothing.
proof fn lemma_no_lt_first_match(s: Seq<char>, i: int, hi: int, p: Seq<char>)
    requires
        forall|k: int| 0 <= k < s.len() ==> s[k] != '<',
        p.len() > 0,
        p[0] == '<',
    ensures
        first_match(s, i, hi, p) is None,
    decreases hi + 1 - i,
{
    lemma_no_lt_no_match(s, i, hi, p);
    if i <= hi {
        lemma_no_lt_first_match(s, i + 1, hi, p);
    }
}

/// Without `<`, no tag and no comment starts anywhere.
proof fn lemma_no_lt_no_tag(s: Seq<char>, i: int, hi: int)
    requires
        forall|k: int| 0 <= k < s.len() ==> s[k] != '<',
    ensures
        open_tag_at(s, i, hi) is None,
        crate::scan::close_tag_at(s, i, hi) is None,
        !crate::scan::starts_at(s, i, hi, "<!--"@),
        !aml_tag_at(s, i, hi),
{
    reveal_strlit("<!--");
    reveal_strlit("<aml");
    lemma_plain_names();
    let names = seq!["skill"@, "param"@, "tool"@, "session"@, "agent"@];
    assert forall|n: Seq<char>| #![auto] names.contains(n) implies !crate::scan::opens_tag(s, i, hi, n)
        && !crate::scan::closes_tag(s, i, hi, n) by {
        lemma_no_lt_no_match(s, i, hi, seq!['<'] + n);
        lemma_no_lt_no_match(s, i, hi, crate::scan::close_text(n));
    }
    assert(names[0] == "skill"@ && names[1] == "param"@ && names[2] == "tool"@ && names[3] == "session"@
        && names[4] == "agent"@);
    assert(names.contains("skill"@) && names.contains("param"@) && names.contains("tool"@) && names.contains(
        "session"@,
    ) && names.contains("agent"@));
    lemma_no_lt_no_match(s, i, hi, "<!--"@);
    lemma_no_lt_no_match(s, i, hi, "<aml"@);
}

/// Without `<`, plain text runs to the end of the region.
proof fn lemma_no_lt_no_boundary(s: Seq<char>, i: int, hi: int)
    requires
        forall|k: int| 0 <= k < s.len() ==> s[k] != '<',
    ensures
        crate::scan::next_boundary(s, i, hi, crate::scan::Body::Plain) is None,
    decreases hi - i,
{
    if i < hi {
        lemma_no_lt_no_tag(s, i, hi);
        lemma_no_lt_no_boundary(s, i + 1, hi);
    }
}

/// Text without `<` parses to one text node holding it, entities decoded, and no version.
pub proof fn law_text_without_tags_is_one_text_node(s: Seq<char>)
    requires
        s.len() > 0,
        forall|k: int| 0 <= k < s.len() ==> s[k] != '<',
    ensures
        document_of(s, byte_offsets(s)) == Some(
            SpecDocument { version: None, nodes: seq![SpecNode::Text(crate::scan::decode(s))] },
        ),
{
    let n = s.len() as int;
    let offs = byte_offsets(s);
    reveal_strlit("<aml");
    lemma_no_lt_first_match(s, 0, n, "<aml"@);
    assert forall|j: int| 0 <= j < n implies !aml_tag_at(s, j, n) by {
        lemma_no_lt_no_tag(s, j, n);
    }
    lemma_no_lt_no_tag(s, 0, n);
    lemma_no_lt_no_boundary(s, 0, n);
    assert(s.subrange(0, n) =~= s);
    let t = SpecNode::Text(crate::scan::decode(s));
    reveal_with_fuel(crate::grammar::step, 2);
    assert(crate::grammar::step(crate::grammar::Ctx::Plain, s, offs, 0, n) == Some(
        (seq![crate::grammar::BodyItem::Child(t)], n),
    ));
    reveal_with_fuel(crate::grammar::items_scan, 2);
    assert(seq![crate::grammar::BodyItem::Child(t)] + Seq::<crate::grammar::BodyItem>::empty() =~= seq![
        crate::grammar::BodyItem::Child(t),
    ]);
    let items = seq![crate::grammar::BodyItem::Child(t)];
    assert(crate::grammar::items_scan(crate::grammar::Ctx::Plain, s, offs, 0, n) == Some(items));
    assert(items.drop_last() =~= Seq::<crate::grammar::BodyItem>::empty());
    assert(crate::grammar::item_children(items) == seq![t]) by {
        reveal_with_fuel(crate::grammar::item_children, 2);
        assert(Seq::<SpecNode>::empty().push(t) =~= seq![t]);
    }
    assert(merge_texts(seq![t]) == seq![t]) by {
        assert(seq![t].drop_last() =~= Seq::<SpecNode>::empty());
        reveal_with_fuel(merge_texts, 2);
        assert(Seq::<SpecNode>::empty().push(t) =~= seq![t]);
    }
}

/// Replacing an entity in text without `&` leaves it as it is.
proof fn lemma_replace_without_amp(s: Seq<char>, pat: Seq<char>, rep: char)
    requires
        pat.len() > 0,
        pat[0] == '&',
        forall|k: int| 0 <= k < s.len() ==> s[k] != '&',
    ensures
        crate::scan::replace_all(s, pat, rep) == s,
    decreases s.len(),
{
    if s.len() > 0 {
        if pat.len() <= s.len() && s.take(pat.len() as int) == pat {
            assert(s.take(pat.len() as int)[0] == s[0]);
        }
        lemma_replace_without_amp(s.skip(1), pat, rep);
        assert(seq![s[0]] + s.skip(1) =~= s);
    }
}

/// Text outside tags, without entities, is kept verbatim: input without `<` and `&` is a
/// document of one text node holding the whole input.
pub proof fn law_plain_text_is_kept_verbatim(s: Seq<char>)
    requires
        s.len() > 0,
        forall|k: int| 0 <= k < s.len() ==> s[k] != '<' && s[k] != '&',
    ensures
        document_of(s, byte_offsets(s)) == Some(SpecDocument { version: None, nodes: seq![SpecNode::Text(s)] }),
{
    reveal_strlit("&lt;");
    reveal_strlit("&gt;");
    reveal_strlit("&amp;");
    reveal_strlit("&quot;");
    reveal_strlit("&apos;");
    law_text_without_tags_is_one_text_node(s);
    lemma_replace_without_amp(s, "&lt;"@, '<');
    lemma_replace_without_amp(s, "&gt;"@, '>');
    lemma_replace_without_amp(s, "&amp;"@, '&');
    lemma_replace_without_amp(s, "&quot;"@, '"');
    lemma_replace_without_amp(s, "&apos;"@, '\'');
    assert(crate::scan::decode(s) == s);
}

/// Reject any `<aml` tag in `s[lo..hi]`: it is only valid as a root wrapper.
pub fn reject_nested_aml(s: &[char], offs: &[usize], lo: usize, hi: usize) -> (r: Result<(), ParseError>)
    requires
        region_ok(s@, offs@, lo as int, hi as int),
    ensures
        r is Ok <==> forall|i: int| lo <= i < hi ==> !aml_tag_at(s@, i, hi as int),
        r matches Err(e) ==> e.message@ == "<aml> cannot appear nested inside other content; it is only valid as a root wrapper"@
            && e.span.start == offs@[first_aml_tag(s@, lo as int, hi as int)] && e.span.end == e.span.start + 20,
{
    proof {
        reveal_strlit("<aml");
    }
    let open = lit("<aml");
    let mut search = lo;
    while search < hi
        invariant
            region_ok(s@, offs@, lo as int, hi as int),
            lo <= search <= hi,
            open@ == "<aml"@,
            open@.len() == 4,
            forall|i: int| lo <= i < search ==> !aml_tag_at(s@, i, hi as int),
        decreases hi - search,
    {
        match find_from(s, search, hi, &open) {
            Some(abs) => {
                proof {
                    lemma_first_match_none_before(s@, search as int, hi as int, "<aml"@, abs as int);
                }
                if is_tag_start_after(s, abs + 4, hi) {
                    proof {
                        assert(offs@[abs as int] <= offs@[s@.len() as int]);
                        assert(aml_tag_at(s@, abs as int, hi as int));
                    }
                    return Err(
                        error(
                            String::from_str(
                                "<aml> cannot appear nested inside other content; it is only valid as a root wrapper",
                            ),
                            offs[abs],
                            offs[abs] + 20,
                        ),
                    );
                }
                search = abs + 4;
                proof {
                    reveal_strlit("<aml");
                    assert forall|i: int| abs < i < search implies !aml_tag_at(s@, i, hi as int) by {
                        if crate::scan::starts_at(s@, i, hi as int, "<aml"@) {
                            assert(s@.subrange(i, i + 4)[0] == s@[i]);
                            assert(s@.subrange(abs as int, abs + 4)[i - abs] == s@[i]);
                        }
                    }
                }
            },
            None => {
                proof {
                    lemma_first_match_none_all(s@, search as int, hi as int, "<aml"@);
                }
                search = hi;
            },
        }
    }
    Ok(())
}

/// Before the first match, `p` does not occur.
proof fn lemma_first_match_none_before(s: Seq<char>, lo: int, hi: int, p: Seq<char>, m: int)
    requires
        first_match(s, lo, hi, p) == Some(m),
    ensures
        forall|i: int| lo <= i < m ==> !crate::scan::starts_at(s, i, hi, p),
        crate::scan::starts_at(s, m, hi, p),
    decreases hi + 1 - lo,
{
    if lo <= hi && !crate::scan::starts_at(s, lo, hi, p) {
        lemma_first_match_none_before(s, lo + 1, hi, p, m);
    }
}

/// With no match, `p` does not occur at all.
proof fn lemma_first_match_none_all(s: Seq<char>, lo: int, hi: int, p: Seq<char>)
    requires
        first_match(s, lo, hi, p) is None,
    ensures
        forall|i: int| lo <= i <= hi ==> !crate::scan::starts_at(s, i, hi, p),
    decreases hi + 1 - lo,
{
    if lo <= hi {
        lemma_first_match_none_all(s, lo + 1, hi, p);
    }
}

/// Without a root wrapper, the only error of the wrapper is a nested `<aml>` tag, and any
/// other error is that of the scan of the whole text.
proof fn lemma_no_root_errors(s: Seq<char>, offs: Seq<usize>)
    requires
        !has_aml_root(s),
    ensures
        (exists|j: int| 0 <= j < s.len() && aml_tag_at(s, j, s.len() as int)) ==> root_error(s, offs) == Some((
            "<aml> cannot appear nested inside other content; it is only valid as a root wrapper"@,
            offs[first_aml_tag(s, 0, s.len() as int)] as int,
            offs[first_aml_tag(s, 0, s.len() as int)] + 20,
        )) && parse_error_message(s, offs) == "<aml> cannot appear nested inside other content; it is only valid as a root wrapper"@,
        !(exists|j: int| 0 <= j < s.len() && aml_tag_at(s, j, s.len() as int)) ==> root_error(s, offs) is None
            && parse_error_message(s, offs) == crate::grammar::scan_error(Ctx::Plain, s, offs, 0, s.len() as int)
            && parse_error_span(s, offs) == crate::grammar::scan_error_span(Ctx::Plain, s, offs, 0, s.len() as int),
        (exists|j: int| 0 <= j < s.len() && aml_tag_at(s, j, s.len() as int)) ==> parse_error_span(s, offs) == Some((
            offs[first_aml_tag(s, 0, s.len() as int)] as int,
            offs[first_aml_tag(s, 0, s.len() as int)] + 20,
        )),
{
    reveal(root_error);
    reveal(parse_error_message);
    reveal(parse_error_span);
    reveal_strlit("<aml");
    let n = s.len() as int;
    if first_match(s, 0, n, "<aml"@) is None {
        lemma_first_match_none_all(s, 0, n, "<aml"@);
    }
}

/// Attempt to parse an `<aml version="...">` root wrapper; `None` when the text has no
/// `<aml` root tag.
#[verifier::spinoff_prover]
#[verifier::rlimit(100)]
pub fn try_parse_aml_root(s: &[char], offs: &[usize]) -> (r: Result<Option<Document>, ParseError>)
    requires
        offs_wf(s@, offs@),
    ensures
        match r {
            Ok(None) => aml_root_of(s@, offs@) is None,
            Ok(Some(d)) => aml_root_of(s@, offs@) == Some(Some(d@)),
            Err(x) => aml_root_of(s@, offs@) == Some(None::<SpecDocument>) && x.message@ == parse_error_message(s@, offs@)
                && span_is(x, parse_error_span(s@, offs@)),
        },
        r matches Ok(None) ==> !has_aml_root(s@),
        r matches Ok(Some(d)) ==> d.version is Some && texts_merged(Node::models(d.nodes@)) && has_aml_root(s@),
        has_aml_root(s@) ==> !(r matches Ok(None)),
        has_aml_root(s@) ==> (root_error(s@, offs@) matches Some((m, a, b)) ==> (r matches Err(e) && e.message@ == m
            && e.span.start == a && e.span.end == b)),
{
    proof {
        reveal(root_error);
        reveal(parse_error_message);
        reveal(parse_error_span);
        reveal_strlit("<aml");
        reveal_strlit("</aml>");
        reveal_strlit("aml");
        lemma_plain_names();
        assert(offs@[0] <= offs@[s@.len() as int]);
    }
    let n = s.len();
    let open = lit("<aml");
    let close = lit("</aml>");
    let aml_start = match find_from(s, 0, n, &open) {
        Some(i) => i,
        None => {
            return Ok(None);
        },
    };
    if !is_tag_start_after(s, aml_start + 4, n) {
        return Ok(None);
    }
    proof {
        lemma_first_match_none_before(s@, 0, n as int, "<aml"@, aml_start as int);
        assert(offs@[aml_start as int] <= offs@[n as int]);
        assert(open@ =~= seq!['<'] + "aml"@);
        assert(opens_tag(s@, aml_start as int, n as int, "aml"@));
    }
    if !is_only_comments(s, 0, aml_start) {
        return Err(
            error(
                String::from_str("non-whitespace content before <aml> root wrapper is not allowed"),
                0,
                offs[aml_start],
            ),
        );
    }
    let aml_name = lit("aml");
    let (e, sc, attrs) = read_open_tag(s, offs, aml_start, n, aml_name.as_slice(), "unclosed <aml> opening tag")?;
    let version = match get_attr(&attrs, "version") {
        Some(v) => v,
        None => {
            return Err(
                error(String::from_str("<aml> requires 'version' attribute"), offs[aml_start], offs[e + 1]),
            );
        },
    };
    let mut k: usize = 0;
    while k < attrs.len()
        invariant
            0 <= k <= attrs@.len(),
            e + 1 <= n,
            offs_wf(s@, offs@),
            aml_start < e,
            n == s@.len(),
            forall|j: int| 0 <= j < k ==> (#[trigger] attrs_view(attrs@)[j]).0 == "version"@,
            first_match(s@, 0, n as int, "<aml"@) == Some(aml_start as int),
            crate::scan::tag_start_after(s@, aml_start + 4, n as int),
            crate::scan::only_comments(s@.subrange(0, aml_start as int)),
            open_tag_reading(s@, aml_start as int, n as int, "aml"@) == Some((e as int, sc, attrs_view(attrs@))),
            crate::attrs::attr_get(attrs_view(attrs@), "version"@) is Some,
        decreases attrs@.len() - k,
    {
        if !crate::text::str_eq(attrs[k].0.as_str(), "version") {
            assert(attrs_view(attrs@)[k as int].0 != "version"@);
            proof {
                reveal(root_error);
                reveal(parse_error_message);
                reveal(parse_error_span);
            }
            let mut msg = join3("<aml> does not support '", attrs[k].0.as_str(), "' attribute (only 'version' is allowed)");
            return Err(error(msg, offs[aml_start], offs[e + 1]));
        }
        k = k + 1;
    }
    if sc {
        if !is_only_comments(s, e + 1, n) {
            return Err(
                error(
                    String::from_str("non-whitespace content after <aml/> root wrapper is not allowed"),
                    offs[e + 1],
                    offs[n],
                ),
            );
        }
        let d = Document::with_version(version, Vec::new());
        assert(Node::models(d.nodes@) =~= Seq::<SpecNode>::empty());
        return Ok(Some(d));
    }
    let cs = e + 1;
    let close_pos = match find_from(s, cs, n, &close) {
        Some(c) => c,
        None => {
            return Err(
                error(
                    String::from_str("unclosed <aml> tag \u{2014} missing </aml>"),
                    offs[aml_start],
                    offs[n],
                ),
            );
        },
    };
    reject_nested_aml(s, offs, cs, close_pos)?;
    let after = close_pos + 6;
    if !is_only_comments(s, after, n) {
        return Err(
            error(
                String::from_str("non-whitespace content after </aml> is not allowed"),
                offs[after],
                offs[n],
            ),
        );
    }
    match find_from(s, after, n, &open) {
        Some(second) => {
            if is_tag_start_after(s, second + 4, n) {
                proof {
                    assert(offs@[second as int] <= offs@[n as int]);
                }
                return Err(
                    error(
                        String::from_str("multiple <aml> root wrappers are not allowed"),
                        offs[second],
                        offs[second] + 20,
                    ),
                );
            }
        },
        None => {},
    }
    let nodes = parse_nodes(s, offs, cs, close_pos)?;
    Ok(Some(Document::with_version(version, nodes)))
}

/// Parse an AML document.
///
/// The parser is embedded-tolerant: it extracts `<skill>`, `<param>` and directive tags
/// from arbitrary text, treating everything else as literal text nodes. With an
/// `<aml version="...">` wrapper, the document's version is set and the wrapper's
/// children become the root nodes; only white space and comments may stand outside it.
#[verifier::spinoff_prover]
#[verifier::rlimit(100)]
pub fn parse(input: &str) -> (r: Result<Document, ParseError>)
    requires
        byte_len(input@) + SPAN_ROOM <= usize::MAX,
    ensures
        match r {
            Ok(d) => document_of(input@, byte_offsets(input@)) == Some(d@),
            Err(x) => document_of(input@, byte_offsets(input@)) is None && x.message@ == parse_error_message(
                input@,
                byte_offsets(input@),
            ) && span_is(x, parse_error_span(input@, byte_offsets(input@))),
        },
        r matches Ok(d) ==> (d.version is Some <==> has_aml_root(input@)),
        r matches Ok(d) ==> texts_merged(Node::models(d.nodes@)),
        root_error(input@, byte_offsets(input@)) matches Some((m, a, b)) ==> (r matches Err(e) && e.message@ == m
            && e.span.start == a && e.span.end == b),
{
    let (s, offs) = source_of(input);
    proof {
        lemma_offsets_unique(s@, offs@);
        if !has_aml_root(s@) {
            lemma_no_root_errors(s@, offs@);
        }
    }
    match try_parse_aml_root(s.as_slice(), offs.as_slice())? {
        Some(doc) => {
            return Ok(doc);
        },
        None => {},
    }
    reject_nested_aml(s.as_slice(), offs.as_slice(), 0, s.len())?;
    let nodes = parse_nodes(s.as_slice(), offs.as_slice(), 0, s.len())?;
    Ok(Document::new(nodes))
}

} // verus!
