//! Scanning AML text held as characters: literal matches, tag detection,
//! tag ends, matching close tags, comments and character entities.
use vstd::prelude::*;

use crate::text::{chars_of, is_ascii_whitespace, is_ascii_ws, is_unicode_whitespace, is_whitespace, trim, trim_bounds};

verus! {

/// `p` occurs in `s` at `i`, within the region that ends at `hi`.
pub open spec fn starts_at(s: Seq<char>, i: int, hi: int, p: Seq<char>) -> bool {
    &&& 0 <= i
    &&& i + p.len() <= hi <= s.len()
    &&& s.subrange(i, i + p.len()) == p
}

/// Whether `p` occurs in `s` at `i` (within `..hi`).
pub fn starts_with_at(s: &[char], i: usize, hi: usize, p: &[char]) -> (b: bool)
    requires
        i <= hi <= s@.len(),
    ensures
        b == starts_at(s@, i as int, hi as int, p@),
{
    if p.len() > hi - i {
        return false;
    }
    let mut k: usize = 0;
    while k < p.len()
        invariant
            i + p@.len() <= hi <= s@.len(),
            0 <= k <= p@.len(),
            forall|j: int| 0 <= j < k ==> s@[i + j] == p@[j],
        decreases p@.len() - k,
    {
        if s[i + k] != p[k] {
            assert(s@.subrange(i as int, i + p@.len())[k as int] != p@[k as int]);
            return false;
        }
        k = k + 1;
    }
    assert(s@.subrange(i as int, i + p@.len()) =~= p@);
    true
}

/// The first position in `lo..=hi` where `p` occurs (`str::find` on `s[lo..hi]`).
pub open spec fn first_match(s: Seq<char>, lo: int, hi: int, p: Seq<char>) -> Option<int>
    decreases hi + 1 - lo,
{
    if lo > hi {
        None
    } else if starts_at(s, lo, hi, p) {
        Some(lo)
    } else {
        first_match(s, lo + 1, hi, p)
    }
}

/// The first position from `lo` at which `p` occurs within `..hi`.
pub fn find_from(s: &[char], lo: usize, hi: usize, p: &[char]) -> (r: Option<usize>)
    requires
        lo <= hi <= s@.len(),
    ensures
        opt_int(r) == first_match(s@, lo as int, hi as int, p@),
        r matches Some(i) ==> lo <= i && i + p@.len() <= hi,
{
    let mut i = lo;
    while i <= hi
        invariant
            lo <= i <= hi + 1,
            hi <= s@.len(),
            first_match(s@, lo as int, hi as int, p@) == first_match(s@, i as int, hi as int, p@),
        decreases hi + 1 - i,
    {
        if starts_with_at(s, i, hi, p) {
            return Some(i);
        }
        if i == hi {
            assert(first_match(s@, (i + 1) as int, hi as int, p@) is None);
            return None;
        }
        i = i + 1;
    }
    None
}

/// An optional position as a mathematical integer.
pub open spec fn opt_int(r: Option<usize>) -> Option<int> {
    match r {
        Some(x) => Some(x as int),
        None => None,
    }
}

/// The characters of a literal.
pub fn lit(x: &str) -> (v: Vec<char>)
    ensures
        v@ == x@,
{
    chars_of(x)
}

/// The character at `j` may follow a tag name: end of input, white space, `>` or `/`.
pub open spec fn tag_start_after(s: Seq<char>, j: int, hi: int) -> bool {
    j == hi || (0 <= j < hi && (is_unicode_whitespace(s[j]) || s[j] == '>' || s[j] == '/'))
}

/// Check the character right after a tag name (white space, `>`, `/`, or nothing).
pub fn is_tag_start_after(s: &[char], j: usize, hi: usize) -> (b: bool)
    requires
        j <= hi <= s@.len(),
    ensures
        b == tag_start_after(s@, j as int, hi as int),
{
    j == hi || is_whitespace(s[j]) || s[j] == '>' || s[j] == '/'
}

/// An opening tag `<name` followed by a valid tag-start character occurs at `i`.
pub open spec fn opens_tag(s: Seq<char>, i: int, hi: int, name: Seq<char>) -> bool {
    starts_at(s, i, hi, seq!['<'] + name) && tag_start_after(s, i + 1 + name.len(), hi)
}

/// A close tag `</name>` occurs at `i`.
pub open spec fn closes_tag(s: Seq<char>, i: int, hi: int, name: Seq<char>) -> bool {
    starts_at(s, i, hi, close_text(name))
}

pub open spec fn close_text(name: Seq<char>) -> Seq<char> {
    seq!['<', '/'] + name + seq!['>']
}

pub proof fn lemma_opens_lt(s: Seq<char>, i: int, hi: int, name: Seq<char>)
    ensures
        opens_tag(s, i, hi, name) ==> i < hi && s[i] == '<',
{
    if opens_tag(s, i, hi, name) {
        assert(s.subrange(i, i + 1 + name.len())[0] == s[i]);
        assert((seq!['<'] + name)[0] == '<');
    }
}

/// Whether `<name` opens a tag at `i`.
pub fn opens_named(s: &[char], i: usize, hi: usize, name: &[char]) -> (b: bool)
    requires
        i <= hi <= s@.len(),
    ensures
        b == opens_tag(s@, i as int, hi as int, name@),
{
    if i >= hi {
        return false;
    }
    if s[i] != '<' {
        assert(i + 1 + name@.len() <= hi ==> s@.subrange(i as int, i + 1 + name@.len())[0] != (
        seq!['<'] + name@)[0]);
        return false;
    }
    if name.len() > hi - i - 1 {
        return false;
    }
    let mut k: usize = 0;
    while k < name.len()
        invariant
            i < hi <= s@.len(),
            s@[i as int] == '<',
            i + 1 + name@.len() <= hi,
            0 <= k <= name@.len(),
            forall|j: int| 0 <= j < k ==> s@[i + 1 + j] == name@[j],
        decreases name@.len() - k,
    {
        if s[i + 1 + k] != name[k] {
            assert(s@.subrange(i as int, i + 1 + name@.len())[k + 1] != (seq!['<'] + name@)[k + 1]);
            return false;
        }
        k = k + 1;
    }
    assert(s@.subrange(i as int, i + 1 + name@.len()) =~= seq!['<'] + name@);
    is_tag_start_after(s, i + 1 + name.len(), hi)
}

/// Whether `</name>` occurs at `i`.
pub fn closes_named(s: &[char], i: usize, hi: usize, name: &[char]) -> (b: bool)
    requires
        i <= hi <= s@.len(),
    ensures
        b == closes_tag(s@, i as int, hi as int, name@),
{
    if name.len() > hi - i || hi - i - name.len() < 3 {
        return false;
    }
    let ghost ct = close_text(name@);
    let ghost w = s@.subrange(i as int, i + 3 + name@.len());
    assert(ct[1] == '/');
    if s[i] != '<' || s[i + 1] != '/' || s[i + 2 + name.len()] != '>' {
        assert(w[0] == s@[i as int]);
        assert(w[1] == s@[i + 1]);
        assert(w[2 + name@.len() as int] == s@[i + 2 + name@.len()]);
        assert(ct[0] == '<');
        assert(ct[2 + name@.len() as int] == '>');
        return false;
    }
    let mut k: usize = 0;
    while k < name.len()
        invariant
            i + 3 + name@.len() <= hi <= s@.len(),
            0 <= k <= name@.len(),
            forall|j: int| 0 <= j < k ==> s@[i + 2 + j] == name@[j],
        decreases name@.len() - k,
    {
        if s[i + 2 + k] != name[k] {
            assert(s@.subrange(i as int, i + 3 + name@.len())[k + 2] != close_text(name@)[k + 2]);
            return false;
        }
        k = k + 1;
    }
    assert(s@.subrange(i as int, i + 3 + name@.len()) =~= close_text(name@));
    true
}

/// Recognised tag names in AML.
#[derive(Debug, Clone, Copy, PartialEq, Eq, Structural)]
pub enum TagName {
    Skill,
    Param,
    Tool,
    Session,
    Agent,
}

pub open spec fn tag_text(t: TagName) -> Seq<char> {
    match t {
        TagName::Skill => "skill"@,
        TagName::Param => "param"@,
        TagName::Tool => "tool"@,
        TagName::Session => "session"@,
        TagName::Agent => "agent"@,
    }
}

impl TagName {
    pub fn as_str(self) -> (s: &'static str)
        ensures
            s@ == tag_text(self),
    {
        match self {
            TagName::Skill => "skill",
            TagName::Param => "param",
            TagName::Tool => "tool",
            TagName::Session => "session",
            TagName::Agent => "agent",
        }
    }

    /// Length of the tag name.
    pub fn len(self) -> (n: usize)
        ensures
            n == tag_text(self).len(),
    {
        proof {
            reveal_strlit("skill");
            reveal_strlit("param");
            reveal_strlit("tool");
            reveal_strlit("session");
            reveal_strlit("agent");
        }
        match self {
            TagName::Skill => 5,
            TagName::Param => 5,
            TagName::Tool => 4,
            TagName::Session => 7,
            TagName::Agent => 5,
        }
    }

    /// Tags that can contain children (all but `param`).
    pub fn is_element(self) -> (b: bool)
        ensures
            b == !(self is Param),
    {
        !matches!(self, TagName::Param)
    }

    /// Tags that are directives.
    pub fn is_directive(self) -> (b: bool)
        ensures
            b == (self is Tool || self is Session || self is Agent),
    {
        matches!(self, TagName::Tool | TagName::Session | TagName::Agent)
    }

    /// The characters of the tag name.
    pub fn chars(self) -> (v: Vec<char>)
        ensures
            v@ == tag_text(self),
    {
        lit(self.as_str())
    }
}

/// The first recognised tag (in the order skill, param, tool, session, agent) opening at `i`.
pub open spec fn open_tag_at(s: Seq<char>, i: int, hi: int) -> Option<TagName> {
    if opens_tag(s, i, hi, "skill"@) {
        Some(TagName::Skill)
    } else if opens_tag(s, i, hi, "param"@) {
        Some(TagName::Param)
    } else if opens_tag(s, i, hi, "tool"@) {
        Some(TagName::Tool)
    } else if opens_tag(s, i, hi, "session"@) {
        Some(TagName::Session)
    } else if opens_tag(s, i, hi, "agent"@) {
        Some(TagName::Agent)
    } else {
        None
    }
}

/// The first recognised close tag at `i`.
pub open spec fn close_tag_at(s: Seq<char>, i: int, hi: int) -> Option<TagName> {
    if closes_tag(s, i, hi, "skill"@) {
        Some(TagName::Skill)
    } else if closes_tag(s, i, hi, "param"@) {
        Some(TagName::Param)
    } else if closes_tag(s, i, hi, "tool"@) {
        Some(TagName::Tool)
    } else if closes_tag(s, i, hi, "session"@) {
        Some(TagName::Session)
    } else if closes_tag(s, i, hi, "agent"@) {
        Some(TagName::Agent)
    } else {
        None
    }
}

/// Detect which tag opens at `i`, if any.
pub fn detect_open_tag(s: &[char], i: usize, hi: usize) -> (r: Option<TagName>)
    requires
        i <= hi <= s@.len(),
    ensures
        r == open_tag_at(s@, i as int, hi as int),
{
    if i >= hi || s[i] != '<' {
        proof {
            lemma_opens_lt(s@, i as int, hi as int, "skill"@);
            lemma_opens_lt(s@, i as int, hi as int, "param"@);
            lemma_opens_lt(s@, i as int, hi as int, "tool"@);
            lemma_opens_lt(s@, i as int, hi as int, "session"@);
            lemma_opens_lt(s@, i as int, hi as int, "agent"@);
        }
        return None;
    }
    if opens_named(s, i, hi, &lit("skill")) {
        Some(TagName::Skill)
    } else if opens_named(s, i, hi, &lit("param")) {
        Some(TagName::Param)
    } else if opens_named(s, i, hi, &lit("tool")) {
        Some(TagName::Tool)
    } else if opens_named(s, i, hi, &lit("session")) {
        Some(TagName::Session)
    } else if opens_named(s, i, hi, &lit("agent")) {
        Some(TagName::Agent)
    } else {
        None
    }
}

/// Detect which close tag starts at `i`, if any.
pub fn detect_close_tag(s: &[char], i: usize, hi: usize) -> (r: Option<TagName>)
    requires
        i <= hi <= s@.len(),
    ensures
        r == close_tag_at(s@, i as int, hi as int),
{
    if closes_named(s, i, hi, &lit("skill")) {
        Some(TagName::Skill)
    } else if closes_named(s, i, hi, &lit("param")) {
        Some(TagName::Param)
    } else if closes_named(s, i, hi, &lit("tool")) {
        Some(TagName::Tool)
    } else if closes_named(s, i, hi, &lit("session")) {
        Some(TagName::Session)
    } else if closes_named(s, i, hi, &lit("agent")) {
        Some(TagName::Agent)
    } else {
        None
    }
}


/// Declaration tags that are recognised only inside definition bodies.
#[derive(Debug, Clone, Copy, PartialEq, Eq, Structural)]
pub enum DeclTag {
    Param,
    Returns,
    Reads,
    Writes,
    Field,
    Node,
}

pub open spec fn decl_text(t: DeclTag) -> Seq<char> {
    match t {
        DeclTag::Param => "param"@,
        DeclTag::Returns => "returns"@,
        DeclTag::Reads => "reads"@,
        DeclTag::Writes => "writes"@,
        DeclTag::Field => "field"@,
        DeclTag::Node => "node"@,
    }
}

/// Which body a scan is in: plain content, or an interface, contract or implementation body.
#[derive(Debug, Clone, Copy, PartialEq, Eq, Structural)]
pub enum Body {
    Plain,
    Interface,
    Contract,
    Implementation,
}

/// The declaration tags of a body, in the order they are tried.
pub open spec fn body_decls(b: Body) -> Seq<DeclTag> {
    match b {
        Body::Plain => seq![],
        Body::Interface => seq![DeclTag::Param, DeclTag::Returns, DeclTag::Reads, DeclTag::Writes],
        Body::Contract => seq![DeclTag::Field],
        Body::Implementation => seq![DeclTag::Node],
    }
}

/// The first declaration tag of `tags` that opens at `i`.
pub open spec fn first_decl_open(s: Seq<char>, i: int, hi: int, tags: Seq<DeclTag>) -> Option<DeclTag>
    decreases tags.len(),
{
    if tags.len() == 0 {
        None
    } else if opens_tag(s, i, hi, decl_text(tags[0])) {
        Some(tags[0])
    } else {
        first_decl_open(s, i, hi, tags.drop_first())
    }
}

/// The first declaration tag of `tags` whose close tag is at `i`.
pub open spec fn first_decl_close(s: Seq<char>, i: int, hi: int, tags: Seq<DeclTag>) -> Option<DeclTag>
    decreases tags.len(),
{
    if tags.len() == 0 {
        None
    } else if closes_tag(s, i, hi, decl_text(tags[0])) {
        Some(tags[0])
    } else {
        first_decl_close(s, i, hi, tags.drop_first())
    }
}

/// A detected declaration tag does open at the position.
pub proof fn lemma_first_decl_open(s: Seq<char>, i: int, hi: int, tags: Seq<DeclTag>)
    ensures
        first_decl_open(s, i, hi, tags) matches Some(t) ==> opens_tag(s, i, hi, decl_text(t))
            && tags.contains(t),
    decreases tags.len(),
{
    if tags.len() > 0 && !opens_tag(s, i, hi, decl_text(tags[0])) {
        lemma_first_decl_open(s, i, hi, tags.drop_first());
        if first_decl_open(s, i, hi, tags) is Some {
            let t = first_decl_open(s, i, hi, tags).unwrap();
            let j = choose|j: int| 0 <= j < tags.drop_first().len() && tags.drop_first()[j] == t;
            assert(tags[j + 1] == t);
        }
    } else if tags.len() > 0 {
        assert(tags[0] == tags[0]);
    }
}

impl DeclTag {
    pub fn as_str(self) -> (s: &'static str)
        ensures
            s@ == decl_text(self),
    {
        match self {
            DeclTag::Param => "param",
            DeclTag::Returns => "returns",
            DeclTag::Reads => "reads",
            DeclTag::Writes => "writes",
            DeclTag::Field => "field",
            DeclTag::Node => "node",
        }
    }

    /// Length of the tag name.
    pub fn len(self) -> (n: usize)
        ensures
            n == decl_text(self).len(),
    {
        proof {
            reveal_strlit("param");
            reveal_strlit("returns");
            reveal_strlit("reads");
            reveal_strlit("writes");
            reveal_strlit("field");
            reveal_strlit("node");
        }
        match self {
            DeclTag::Param => 5,
            DeclTag::Returns => 7,
            DeclTag::Reads => 5,
            DeclTag::Writes => 6,
            DeclTag::Field => 5,
            DeclTag::Node => 4,
        }
    }
}

/// The declaration tags of body `b`.
fn decl_tags(b: Body) -> (v: Vec<DeclTag>)
    ensures
        v@ == body_decls(b),
{
    match b {
        Body::Plain => Vec::new(),
        Body::Interface => vec![DeclTag::Param, DeclTag::Returns, DeclTag::Reads, DeclTag::Writes],
        Body::Contract => vec![DeclTag::Field],
        Body::Implementation => vec![DeclTag::Node],
    }
}

/// Detect a declaration tag of body `b` opening at `i`.
pub fn detect_decl_tag(b: Body, s: &[char], i: usize, hi: usize) -> (r: Option<DeclTag>)
    requires
        i <= hi <= s@.len(),
    ensures
        r == first_decl_open(s@, i as int, hi as int, body_decls(b)),
{
    let tags = decl_tags(b);
    let mut k: usize = 0;
    assert(tags@.skip(0) =~= tags@);
    while k < tags.len()
        invariant
            i <= hi <= s@.len(),
            tags@ == body_decls(b),
            0 <= k <= tags@.len(),
            first_decl_open(s@, i as int, hi as int, tags@) == first_decl_open(
                s@,
                i as int,
                hi as int,
                tags@.skip(k as int),
            ),
        decreases tags@.len() - k,
    {
        let t = tags[k];
        assert(tags@.skip(k as int)[0] == t);
        assert(tags@.skip(k as int).drop_first() =~= tags@.skip(k + 1));
        if opens_named(s, i, hi, &lit(t.as_str())) {
            return Some(t);
        }
        k = k + 1;
    }
    None
}

/// Detect the close tag of a declaration tag of body `b` at `i`.
pub fn detect_decl_close_tag(b: Body, s: &[char], i: usize, hi: usize) -> (r: Option<DeclTag>)
    requires
        i <= hi <= s@.len(),
    ensures
        r == first_decl_close(s@, i as int, hi as int, body_decls(b)),
{
    let tags = decl_tags(b);
    let mut k: usize = 0;
    assert(tags@.skip(0) =~= tags@);
    while k < tags.len()
        invariant
            i <= hi <= s@.len(),
            tags@ == body_decls(b),
            0 <= k <= tags@.len(),
            first_decl_close(s@, i as int, hi as int, tags@) == first_decl_close(
                s@,
                i as int,
                hi as int,
                tags@.skip(k as int),
            ),
        decreases tags@.len() - k,
    {
        let t = tags[k];
        assert(tags@.skip(k as int)[0] == t);
        assert(tags@.skip(k as int).drop_first() =~= tags@.skip(k + 1));
        if closes_named(s, i, hi, &lit(t.as_str())) {
            return Some(t);
        }
        k = k + 1;
    }
    None
}

/// Detect an interface declaration tag (`param`, `returns`, `reads`, `writes`) at `i`.
pub fn detect_interface_decl_tag(s: &[char], i: usize, hi: usize) -> (r: Option<DeclTag>)
    requires
        i <= hi <= s@.len(),
    ensures
        r == first_decl_open(s@, i as int, hi as int, body_decls(Body::Interface)),
{
    detect_decl_tag(Body::Interface, s, i, hi)
}

/// Detect the close tag of an interface declaration at `i`.
pub fn detect_interface_close_tag(s: &[char], i: usize, hi: usize) -> (r: Option<DeclTag>)
    requires
        i <= hi <= s@.len(),
    ensures
        r == first_decl_close(s@, i as int, hi as int, body_decls(Body::Interface)),
{
    detect_decl_close_tag(Body::Interface, s, i, hi)
}

/// Detect a contract declaration tag (`field`) at `i`.
pub fn detect_contract_decl_tag(s: &[char], i: usize, hi: usize) -> (r: Option<DeclTag>)
    requires
        i <= hi <= s@.len(),
    ensures
        r == first_decl_open(s@, i as int, hi as int, body_decls(Body::Contract)),
{
    detect_decl_tag(Body::Contract, s, i, hi)
}

/// Detect the close tag of a contract declaration at `i`.
pub fn detect_contract_close_tag(s: &[char], i: usize, hi: usize) -> (r: Option<DeclTag>)
    requires
        i <= hi <= s@.len(),
    ensures
        r == first_decl_close(s@, i as int, hi as int, body_decls(Body::Contract)),
{
    detect_decl_close_tag(Body::Contract, s, i, hi)
}

/// Detect an implementation declaration tag (`node`) at `i`.
pub fn detect_impl_decl_tag(s: &[char], i: usize, hi: usize) -> (r: Option<DeclTag>)
    requires
        i <= hi <= s@.len(),
    ensures
        r == first_decl_open(s@, i as int, hi as int, body_decls(Body::Implementation)),
{
    detect_decl_tag(Body::Implementation, s, i, hi)
}

/// Detect the close tag of an implementation declaration at `i`.
pub fn detect_impl_close_tag(s: &[char], i: usize, hi: usize) -> (r: Option<DeclTag>)
    requires
        i <= hi <= s@.len(),
    ensures
        r == first_decl_close(s@, i as int, hi as int, body_decls(Body::Implementation)),
{
    detect_decl_close_tag(Body::Implementation, s, i, hi)
}

/// Text in body `b` stops at `i`: a recognised open or close tag (of AML or of the body's
/// declarations) or a comment starts there.
pub open spec fn boundary_at(s: Seq<char>, i: int, hi: int, b: Body) -> bool {
    ||| first_decl_open(s, i, hi, body_decls(b)) is Some
    ||| first_decl_close(s, i, hi, body_decls(b)) is Some
    ||| open_tag_at(s, i, hi) is Some
    ||| close_tag_at(s, i, hi) is Some
    ||| starts_at(s, i, hi, "<!--"@)
}

/// The first position in `i..hi` where text in body `b` stops.
pub open spec fn next_boundary(s: Seq<char>, i: int, hi: int, b: Body) -> Option<int>
    decreases hi - i,
{
    if i >= hi {
        None
    } else if boundary_at(s, i, hi, b) {
        Some(i)
    } else {
        next_boundary(s, i + 1, hi, b)
    }
}

/// The next position in `lo..hi` where text in body `b` stops.
pub fn find_next_boundary(b: Body, s: &[char], lo: usize, hi: usize) -> (r: Option<usize>)
    requires
        lo <= hi <= s@.len(),
    ensures
        opt_int(r) == next_boundary(s@, lo as int, hi as int, b),
        r matches Some(i) ==> lo <= i < hi,
{
    let comment = lit("<!--");
    let mut i = lo;
    while i < hi
        invariant
            lo <= i <= hi <= s@.len(),
            comment@ == "<!--"@,
            next_boundary(s@, lo as int, hi as int, b) == next_boundary(s@, i as int, hi as int, b),
        decreases hi - i,
    {
        if s[i] == '<' {
            if detect_decl_tag(b, s, i, hi).is_some() || detect_decl_close_tag(b, s, i, hi).is_some()
                || detect_open_tag(s, i, hi).is_some() || detect_close_tag(s, i, hi).is_some()
                || starts_with_at(s, i, hi, &comment) {
                return Some(i);
            }
        } else {
            proof {
                lemma_boundary_lt(s@, i as int, hi as int, b);
            }
        }
        i = i + 1;
    }
    None
}

/// Every boundary starts with `<`.
proof fn lemma_boundary_lt(s: Seq<char>, i: int, hi: int, b: Body)
    requires
        0 <= i < hi <= s.len(),
        s[i] != '<',
    ensures
        !boundary_at(s, i, hi, b),
{
    assert forall|name: Seq<char>| !opens_tag(s, i, hi, name) by {
        lemma_opens_lt(s, i, hi, name);
    }
    assert forall|name: Seq<char>| !closes_tag(s, i, hi, name) by {
        if closes_tag(s, i, hi, name) {
            assert(s.subrange(i, i + name.len() + 3)[0] == s[i]);
            assert(close_text(name)[0] == '<');
        }
    }
    reveal_strlit("<!--");
    if starts_at(s, i, hi, "<!--"@) {
        assert(s.subrange(i, i + 4)[0] == s[i]);
    }
    lemma_decl_open_none(s, i, hi, body_decls(b));
    lemma_decl_close_none(s, i, hi, body_decls(b));
}

proof fn lemma_decl_open_none(s: Seq<char>, i: int, hi: int, tags: Seq<DeclTag>)
    requires
        forall|name: Seq<char>| !opens_tag(s, i, hi, name),
    ensures
        first_decl_open(s, i, hi, tags) is None,
    decreases tags.len(),
{
    if tags.len() > 0 {
        lemma_decl_open_none(s, i, hi, tags.drop_first());
    }
}

proof fn lemma_decl_close_none(s: Seq<char>, i: int, hi: int, tags: Seq<DeclTag>)
    requires
        forall|name: Seq<char>| !closes_tag(s, i, hi, name),
    ensures
        first_decl_close(s, i, hi, tags) is None,
    decreases tags.len(),
{
    if tags.len() > 0 {
        lemma_decl_close_none(s, i, hi, tags.drop_first());
    }
}

/// Find the next AML tag or comment start in `lo..hi`.
pub fn find_next_tag_start(s: &[char], lo: usize, hi: usize) -> (r: Option<usize>)
    requires
        lo <= hi <= s@.len(),
    ensures
        opt_int(r) == next_boundary(s@, lo as int, hi as int, Body::Plain),
        r matches Some(i) ==> lo <= i < hi,
{
    find_next_boundary(Body::Plain, s, lo, hi)
}

/// Find the next tag or comment start among skill content (parameters included).
pub fn find_next_tag_or_param(s: &[char], lo: usize, hi: usize) -> (r: Option<usize>)
    requires
        lo <= hi <= s@.len(),
    ensures
        opt_int(r) == next_boundary(s@, lo as int, hi as int, Body::Plain),
        r matches Some(i) ==> lo <= i < hi,
{
    find_next_boundary(Body::Plain, s, lo, hi)
}

/// Find the next interface declaration tag, AML tag or comment in `lo..hi`.
pub fn find_next_interface_tag(s: &[char], lo: usize, hi: usize) -> (r: Option<usize>)
    requires
        lo <= hi <= s@.len(),
    ensures
        opt_int(r) == next_boundary(s@, lo as int, hi as int, Body::Interface),
        r matches Some(i) ==> lo <= i < hi,
{
    find_next_boundary(Body::Interface, s, lo, hi)
}

/// Find the next contract declaration tag, AML tag or comment in `lo..hi`.
pub fn find_next_contract_tag(s: &[char], lo: usize, hi: usize) -> (r: Option<usize>)
    requires
        lo <= hi <= s@.len(),
    ensures
        opt_int(r) == next_boundary(s@, lo as int, hi as int, Body::Contract),
        r matches Some(i) ==> lo <= i < hi,
{
    find_next_boundary(Body::Contract, s, lo, hi)
}

/// Find the next implementation declaration tag, AML tag or comment in `lo..hi`.
pub fn find_next_impl_tag(s: &[char], lo: usize, hi: usize) -> (r: Option<usize>)
    requires
        lo <= hi <= s@.len(),
    ensures
        opt_int(r) == next_boundary(s@, lo as int, hi as int, Body::Implementation),
        r matches Some(i) ==> lo <= i < hi,
{
    find_next_boundary(Body::Implementation, s, lo, hi)
}


/// Scanning from `i` for the `>` that ends a tag, skipping quoted attribute values.
pub open spec fn tag_end_scan(s: Seq<char>, i: int, hi: int, in_quote: bool, q: char) -> Option<int>
    decreases hi - i,
{
    if i >= hi || i < 0 {
        None
    } else if in_quote {
        if s[i] == q {
            tag_end_scan(s, i + 1, hi, false, q)
        } else {
            tag_end_scan(s, i + 1, hi, true, q)
        }
    } else if s[i] == '"' || s[i] == '\'' {
        tag_end_scan(s, i + 1, hi, true, s[i])
    } else if s[i] == '>' {
        Some(i)
    } else {
        tag_end_scan(s, i + 1, hi, false, q)
    }
}

/// The position of the `>` that ends the tag starting at `lo` (its first character skipped).
pub open spec fn tag_end(s: Seq<char>, lo: int, hi: int) -> Option<int> {
    tag_end_scan(s, lo + 1, hi, false, '"')
}

pub proof fn lemma_tag_end_scan_range(s: Seq<char>, i: int, hi: int, in_quote: bool, q: char)
    ensures
        tag_end_scan(s, i, hi, in_quote, q) matches Some(e) ==> i <= e < hi && e >= 0 && s[e] == '>',
    decreases hi - i,
{
    if i < hi && i >= 0 {
        if in_quote {
            lemma_tag_end_scan_range(s, i + 1, hi, s[i] != q, q);
        } else if s[i] == '"' || s[i] == '\'' {
            lemma_tag_end_scan_range(s, i + 1, hi, true, s[i]);
        } else {
            lemma_tag_end_scan_range(s, i + 1, hi, false, q);
        }
    }
}

/// Find the `>` that ends the tag starting at `lo`, ignoring `>` inside quotes.
pub fn find_tag_end(s: &[char], lo: usize, hi: usize) -> (r: Option<usize>)
    requires
        lo <= hi <= s@.len(),
    ensures
        opt_int(r) == tag_end(s@, lo as int, hi as int),
        r matches Some(e) ==> lo < e < hi,
{
    proof {
        lemma_tag_end_scan_range(s@, lo + 1, hi as int, false, '"');
    }
    if lo >= hi {
        return None;
    }
    let mut in_quote = false;
    let mut quote_char = '"';
    let mut i = lo + 1;
    while i < hi
        invariant
            lo < i <= hi <= s@.len(),
            tag_end(s@, lo as int, hi as int) == tag_end_scan(s@, i as int, hi as int, in_quote, quote_char),
        decreases hi - i,
    {
        let ch = s[i];
        if in_quote {
            if ch == quote_char {
                in_quote = false;
            }
        } else if ch == '"' || ch == '\'' {
            in_quote = true;
            quote_char = ch;
        } else if ch == '>' {
            return Some(i);
        }
        i = i + 1;
    }
    None
}

/// Whether the tag starting at `lo` and ending at `e` is self-closing (`.../>`).
pub open spec fn self_closing(s: Seq<char>, e: int) -> bool {
    s[e - 1] == '/'
}

/// Scanning for the close tag matching an open tag, `depth` levels deep.
pub open spec fn close_scan(s: Seq<char>, i: int, hi: int, name: Seq<char>, depth: nat) -> Option<int>
    decreases hi - i,
{
    if i >= hi || i < 0 {
        None
    } else if opens_tag(s, i, hi, name) && (tag_end(s, i, hi) matches Some(e) && self_closing(s, e)) {
        let e = tag_end(s, i, hi).unwrap();
        if i < e + 1 <= hi {
            close_scan(s, e + 1, hi, name, depth)
        } else {
            None
        }
    } else if opens_tag(s, i, hi, name) {
        close_scan(s, i + 1 + name.len(), hi, name, depth + 1)
    } else if closes_tag(s, i, hi, name) {
        if depth <= 1 {
            Some(i)
        } else {
            close_scan(s, i + name.len() + 3, hi, name, (depth - 1) as nat)
        }
    } else {
        close_scan(s, i + 1, hi, name, depth)
    }
}

pub proof fn lemma_close_scan_range(s: Seq<char>, i: int, hi: int, name: Seq<char>, depth: nat)
    ensures
        close_scan(s, i, hi, name, depth) matches Some(e) ==> i <= e && closes_tag(s, e, hi, name),
    decreases hi - i,
{
    if i < hi && i >= 0 {
        if opens_tag(s, i, hi, name) && (tag_end(s, i, hi) matches Some(e) && self_closing(s, e)) {
            let e = tag_end(s, i, hi).unwrap();
            if i < e + 1 <= hi {
                lemma_close_scan_range(s, e + 1, hi, name, depth);
            }
        } else if opens_tag(s, i, hi, name) {
            lemma_close_scan_range(s, i + 1 + name.len(), hi, name, depth + 1);
        } else if closes_tag(s, i, hi, name) {
            if depth > 1 {
                lemma_close_scan_range(s, i + name.len() + 3, hi, name, (depth - 1) as nat);
            }
        } else {
            lemma_close_scan_range(s, i + 1, hi, name, depth);
        }
    }
}

/// The position in `lo..hi` of the close tag `</name>` that matches an open tag just
/// before `lo`, skipping nested and self-closing `<name` tags.
pub fn matching_close(s: &[char], lo: usize, hi: usize, name: &[char]) -> (r: Option<usize>)
    requires
        lo <= hi <= s@.len(),
        hi < usize::MAX,
    ensures
        opt_int(r) == close_scan(s@, lo as int, hi as int, name@, 1),
        r matches Some(e) ==> lo <= e && e + name@.len() + 3 <= hi,
{
    proof {
        lemma_close_scan_range(s@, lo as int, hi as int, name@, 1);
    }
    let mut depth: usize = 1;
    let mut pos = lo;
    while pos < hi
        invariant
            lo <= pos <= hi <= s@.len(),
            depth >= 1,
            depth <= pos - lo + 1,
            hi < usize::MAX,
            close_scan(s@, lo as int, hi as int, name@, 1) == close_scan(s@, pos as int, hi as int, name@, depth as nat),
        decreases hi - pos,
    {
        if opens_named(s, pos, hi, name) {
            match find_tag_end(s, pos, hi) {
                Some(e) => {
                    if s[e - 1] == '/' {
                        assert(self_closing(s@, e as int));
                        assert(tag_end(s@, pos as int, hi as int) == Some(e as int));
                        assert(opens_tag(s@, pos as int, hi as int, name@));
                        assert(pos < e + 1 <= hi);
                        assert(close_scan(s@, pos as int, hi as int, name@, depth as nat) == close_scan(s@, e + 1, hi as int, name@, depth as nat));
                        pos = e + 1;
                        continue;
                    }
                },
                None => {},
            }
            assert(depth < usize::MAX);
            depth = depth + 1;
            pos = pos + 1 + name.len();
        } else if closes_named(s, pos, hi, name) {
            if depth <= 1 {
                return Some(pos);
            }
            depth = depth - 1;
            pos = pos + name.len() + 3;
        } else {
            pos = pos + 1;
        }
    }
    None
}

/// `s` with each occurrence of `pat` (taken left to right) replaced by `rep`.
pub open spec fn replace_all(s: Seq<char>, pat: Seq<char>, rep: char) -> Seq<char>
    decreases s.len(),
{
    if s.len() == 0 {
        s
    } else if pat.len() > 0 && pat.len() <= s.len() && s.take(pat.len() as int) == pat {
        seq![rep] + replace_all(s.skip(pat.len() as int), pat, rep)
    } else {
        seq![s[0]] + replace_all(s.skip(1), pat, rep)
    }
}

/// Replace each occurrence of `pat` in `s` by `rep`.
fn replace_chars(s: &Vec<char>, pat: &Vec<char>, rep: char) -> (r: Vec<char>)
    requires
        pat@.len() > 0,
    ensures
        r@ == replace_all(s@, pat@, rep),
{
    let mut out: Vec<char> = Vec::new();
    let mut i: usize = 0;
    assert(s@.skip(0) =~= s@);
    while i < s.len()
        invariant
            0 <= i <= s@.len(),
            pat@.len() > 0,
            replace_all(s@, pat@, rep) == out@ + replace_all(s@.skip(i as int), pat@, rep),
        decreases s@.len() - i,
    {
        let ghost rest = s@.skip(i as int);
        if starts_with_at(s.as_slice(), i, s.len(), pat.as_slice()) {
            assert(rest.take(pat@.len() as int) =~= s@.subrange(i as int, i + pat@.len()));
            assert(rest.skip(pat@.len() as int) =~= s@.skip(i + pat@.len()));
            out.push(rep);
            assert(out@ + replace_all(s@.skip(i + pat@.len()), pat@, rep) =~= out@.drop_last() + (seq![rep] + replace_all(rest.skip(pat@.len() as int), pat@, rep)));
            i = i + pat.len();
        } else {
            assert(pat@.len() <= rest.len() ==> rest.take(pat@.len() as int) =~= s@.subrange(i as int, i + pat@.len()));
            assert(rest.skip(1) =~= s@.skip(i + 1));
            assert(rest[0] == s@[i as int]);
            out.push(s[i]);
            assert(out@ + replace_all(s@.skip(i + 1), pat@, rep) =~= out@.drop_last() + (seq![s@[i as int]] + replace_all(rest.skip(1), pat@, rep)));
            i = i + 1;
        }
    }
    assert(s@.skip(i as int) =~= Seq::<char>::empty());
    assert(out@ + Seq::<char>::empty() =~= out@);
    out
}

/// Character entities decoded, one kind after another: `&lt;`, `&gt;`, `&amp;`, `&quot;`, `&apos;`.
pub open spec fn decode(s: Seq<char>) -> Seq<char> {
    replace_all(
        replace_all(
            replace_all(replace_all(replace_all(s, "&lt;"@, '<'), "&gt;"@, '>'), "&amp;"@, '&'),
            "&quot;"@,
            '"',
        ),
        "&apos;"@,
        '\'',
    )
}

/// `s` has no `&` and no `;`.
pub open spec fn plain_text(s: Seq<char>) -> bool {
    forall|k: int| 0 <= k < s.len() ==> s[k] != '&' && s[k] != ';'
}

/// `pat` occurs in `s` at `i`.
pub open spec fn occurs_at(s: Seq<char>, pat: Seq<char>, i: int) -> bool {
    0 <= i && i + pat.len() <= s.len() && s.subrange(i, i + pat.len()) == pat
}

/// Replacing a pattern that does not occur leaves the text as it is.
proof fn lemma_replace_absent(s: Seq<char>, pat: Seq<char>, rep: char)
    requires
        pat.len() > 0,
        forall|i: int| !#[trigger] occurs_at(s, pat, i),
    ensures
        replace_all(s, pat, rep) == s,
    decreases s.len(),
{
    if s.len() > 0 {
        if pat.len() <= s.len() {
            assert(s.take(pat.len() as int) =~= s.subrange(0, pat.len() as int));
            assert(!occurs_at(s, pat, 0));
        }
        let t = s.skip(1);
        assert forall|i: int| !#[trigger] occurs_at(t, pat, i) by {
            if 0 <= i && i + pat.len() <= t.len() {
                assert(t.subrange(i, i + pat.len()) =~= s.subrange(i + 1, i + 1 + pat.len()));
                assert(!occurs_at(s, pat, i + 1));
            }
        }
        lemma_replace_absent(t, pat, rep);
        assert(seq![s[0]] + t =~= s);
    }
}

/// Replacing the pattern `e` in `a + e + b`, where `a` has no `&` and `e` starts with one,
/// replaces that one occurrence.
proof fn lemma_replace_one(a: Seq<char>, e: Seq<char>, b: Seq<char>, rep: char)
    requires
        e.len() > 0,
        e[0] == '&',
        forall|k: int| 0 <= k < a.len() ==> a[k] != '&',
        forall|k: int| 0 <= k < b.len() ==> b[k] != '&',
    ensures
        replace_all(a + e + b, e, rep) == a + seq![rep] + b,
    decreases a.len(),
{
    let s = a + e + b;
    if a.len() > 0 {
        if e.len() <= s.len() {
            assert(s.take(e.len() as int)[0] == a[0]);
        }
        let a1 = a.skip(1);
        assert(s.skip(1) =~= a1 + e + b);
        lemma_replace_one(a1, e, b, rep);
        assert(seq![s[0]] + (a1 + seq![rep] + b) =~= a + seq![rep] + b);
    } else {
        assert(s.take(e.len() as int) =~= e);
        assert(s.skip(e.len() as int) =~= b);
        lemma_replace_absent(b, e, rep);
        assert(seq![rep] + b =~= a + seq![rep] + b);
    }
}

/// An entity-shaped pattern (an `&` first, a `;` last) occurs in text whose only `&` and
/// `;` are those of one entity only where that entity is.
proof fn lemma_pass_entity(a: Seq<char>, e: Seq<char>, b: Seq<char>, pat: Seq<char>, rep: char)
    requires
        plain_text(a),
        plain_text(b),
        e.len() >= 2,
        e[0] == '&',
        e[e.len() - 1] == ';',
        plain_text(e.subrange(1, e.len() - 1)),
        pat.len() >= 2,
        pat[0] == '&',
        pat[pat.len() - 1] == ';',
    ensures
        replace_all(a + e + b, pat, rep) == if pat == e {
            a + seq![rep] + b
        } else {
            a + e + b
        },
{
    let s = a + e + b;
    if pat == e {
        lemma_replace_one(a, e, b, rep);
    } else {
        assert forall|i: int| !#[trigger] occurs_at(s, pat, i) by {
            if occurs_at(s, pat, i) {
                assert(s[i] == pat[0]);
                assert(s[i + pat.len() - 1] == pat[pat.len() - 1]);
                if i < a.len() {
                    assert(s[i] == a[i]);
                } else if i > a.len() {
                    if i < a.len() + e.len() - 1 {
                        assert(s[i] == e.subrange(1, e.len() - 1)[i - a.len() - 1]);
                    } else if i == a.len() + e.len() - 1 {
                        assert(s[i] == ';');
                    } else {
                        assert(s[i] == b[i - a.len() - e.len()]);
                    }
                } else {
                    let j = i + pat.len() - 1;
                    if j < a.len() + e.len() - 1 {
                        assert(s[j] == e.subrange(1, e.len() - 1)[j - a.len() - 1]);
                    } else if j > a.len() + e.len() - 1 {
                        assert(s[j] == b[j - a.len() - e.len()]);
                    } else {
                        assert(s.subrange(i, i + pat.len()) =~= e);
                    }
                }
            }
        }
        lemma_replace_absent(s, pat, rep);
    }
}

/// An entity-shaped pattern does not occur in text without `;`.
proof fn lemma_pass_plain(t: Seq<char>, pat: Seq<char>, rep: char)
    requires
        forall|k: int| 0 <= k < t.len() ==> t[k] != ';',
        pat.len() >= 2,
        pat[pat.len() - 1] == ';',
    ensures
        replace_all(t, pat, rep) == t,
{
    assert forall|i: int| !#[trigger] occurs_at(t, pat, i) by {
        if occurs_at(t, pat, i) {
            assert(t[i + pat.len() - 1] == pat[pat.len() - 1]);
        }
    }
    lemma_replace_absent(t, pat, rep);
}

/// The entities, in the order `decode` replaces them, and their characters.
pub open spec fn entity(k: int) -> Seq<char> {
    seq!["&lt;"@, "&gt;"@, "&amp;"@, "&quot;"@, "&apos;"@][k]
}

pub open spec fn entity_char(k: int) -> char {
    seq!['<', '>', '&', '"', '\''][k]
}

proof fn lemma_entities()
    ensures
        forall|k: int| #![trigger entity(k)] 0 <= k < 5 ==> entity(k).len() >= 2 && entity(k)[0] == '&'
            && entity(k)[entity(k).len() - 1] == ';' && plain_text(entity(k).subrange(1, entity(k).len() - 1)),
        forall|k: int| 0 <= k < 5 ==> #[trigger] entity_char(k) != ';',
        forall|i: int, k: int| 0 <= i < 5 && 0 <= k < 5 && i != k ==> #[trigger] entity(i) != #[trigger] entity(k),
{
    reveal_strlit("&lt;");
    reveal_strlit("&gt;");
    reveal_strlit("&amp;");
    reveal_strlit("&quot;");
    reveal_strlit("&apos;");
    assert forall|k: int| #![trigger entity(k)] 0 <= k < 5 implies entity(k).len() >= 2 && entity(k)[0] == '&'
        && entity(k)[entity(k).len() - 1] == ';' && plain_text(entity(k).subrange(1, entity(k).len() - 1)) by {
        if k == 0 {
            assert(entity(0) == "&lt;"@);
        } else if k == 1 {
            assert(entity(1) == "&gt;"@);
        } else if k == 2 {
            assert(entity(2) == "&amp;"@);
        } else if k == 3 {
            assert(entity(3) == "&quot;"@);
        } else {
            assert(entity(4) == "&apos;"@);
        }
    }
    assert forall|i: int, k: int| 0 <= i < 5 && 0 <= k < 5 && i != k implies #[trigger] entity(i) != #[trigger] entity(k) by {
        if entity(i) == entity(k) {
            assert(entity(i)[1] == entity(k)[1]);
            assert(entity(i).len() == entity(k).len());
        }
    }
}

proof fn lemma_decode_step(a: Seq<char>, b: Seq<char>, k: int, i: int, t: Seq<char>)
    requires
        plain_text(a),
        plain_text(b),
        0 <= k < 5,
        0 <= i < 5,
        t == (if i <= k { a + entity(k) + b } else { a + seq![entity_char(k)] + b }),
    ensures
        replace_all(t, entity(i), entity_char(i)) == (if i + 1 <= k { a + entity(k) + b } else { a + seq![entity_char(k)] + b }),
{
    lemma_entities();
    let done = a + seq![entity_char(k)] + b;
    if i <= k {
        lemma_pass_entity(a, entity(k), b, entity(i), entity_char(i));
    } else {
        assert forall|x: int| 0 <= x < done.len() implies done[x] != ';' by {
            if x < a.len() {
                assert(done[x] == a[x]);
            } else if x > a.len() {
                assert(done[x] == b[x - a.len() - 1]);
            }
        }
        lemma_pass_plain(done, entity(i), entity_char(i));
    }
}

/// Decoding replaces each of the five entities `&lt;`, `&gt;`, `&amp;`, `&quot;` and
/// `&apos;` by its character `<`, `>`, `&`, `"` and `'`: in text around it without `&`
/// and `;`, the entity alone changes, into that character.
pub proof fn law_decode_replaces_each_entity(a: Seq<char>, b: Seq<char>, k: int)
    requires
        plain_text(a),
        plain_text(b),
        0 <= k < 5,
    ensures
        decode(a + entity(k) + b) == a + seq![entity_char(k)] + b,
{
    reveal_strlit("&lt;");
    reveal_strlit("&gt;");
    reveal_strlit("&amp;");
    reveal_strlit("&quot;");
    reveal_strlit("&apos;");
    let s = a + entity(k) + b;
    assert(entity(0) == "&lt;"@ && entity_char(0) == '<');
    assert(entity(1) == "&gt;"@ && entity_char(1) == '>');
    assert(entity(2) == "&amp;"@ && entity_char(2) == '&');
    assert(entity(3) == "&quot;"@ && entity_char(3) == '"');
    assert(entity(4) == "&apos;"@ && entity_char(4) == '\'');
    let t1 = replace_all(s, entity(0), entity_char(0));
    lemma_decode_step(a, b, k, 0, s);
    let t2 = replace_all(t1, entity(1), entity_char(1));
    lemma_decode_step(a, b, k, 1, t1);
    let t3 = replace_all(t2, entity(2), entity_char(2));
    lemma_decode_step(a, b, k, 2, t2);
    let t4 = replace_all(t3, entity(3), entity_char(3));
    lemma_decode_step(a, b, k, 3, t3);
    lemma_decode_step(a, b, k, 4, t4);
}

/// Decoding leaves text without `&` as it is.
pub proof fn law_decode_keeps_text_without_entities(s: Seq<char>)
    requires
        forall|k: int| 0 <= k < s.len() ==> s[k] != '&',
    ensures
        decode(s) == s,
{
    lemma_entities();
    assert forall|k: int| 0 <= k < 5 implies replace_all(s, #[trigger] entity(k), entity_char(k)) == s by {
        assert forall|i: int| !#[trigger] occurs_at(s, entity(k), i) by {
            if occurs_at(s, entity(k), i) {
                assert(s[i] == entity(k)[0]);
            }
        }
        lemma_replace_absent(s, entity(k), entity_char(k));
    }
    reveal_strlit("&lt;");
    reveal_strlit("&gt;");
    reveal_strlit("&amp;");
    reveal_strlit("&quot;");
    reveal_strlit("&apos;");
    assert(entity(0) == "&lt;"@ && entity_char(0) == '<');
    assert(entity(1) == "&gt;"@ && entity_char(1) == '>');
    assert(entity(2) == "&amp;"@ && entity_char(2) == '&');
    assert(entity(3) == "&quot;"@ && entity_char(3) == '"');
    assert(entity(4) == "&apos;"@ && entity_char(4) == '\'');
}

/// Decode the character entities of `s[lo..hi]`.
pub fn decode_entities(s: &[char], lo: usize, hi: usize) -> (r: Vec<char>)
    requires
        lo <= hi <= s@.len(),
    ensures
        r@ == decode(s@.subrange(lo as int, hi as int)),
{
    proof {
        reveal_strlit("&lt;");
        reveal_strlit("&gt;");
        reveal_strlit("&amp;");
        reveal_strlit("&quot;");
        reveal_strlit("&apos;");
    }
    let mut v: Vec<char> = Vec::new();
    let mut i = lo;
    while i < hi
        invariant
            lo <= i <= hi <= s@.len(),
            v@ == s@.subrange(lo as int, i as int),
        decreases hi - i,
    {
        v.push(s[i]);
        assert(v@ =~= s@.subrange(lo as int, i + 1));
        i = i + 1;
    }
    let v1 = replace_chars(&v, &lit("&lt;"), '<');
    let v2 = replace_chars(&v1, &lit("&gt;"), '>');
    let v3 = replace_chars(&v2, &lit("&amp;"), '&');
    let v4 = replace_chars(&v3, &lit("&quot;"), '"');
    replace_chars(&v4, &lit("&apos;"), '\'')
}

/// Scanning a trimmed text from `pos`: only comments and ASCII white space remain.
pub open spec fn comments_from(t: Seq<char>, pos: int) -> bool
    decreases t.len() - pos,
{
    if pos >= t.len() || pos < 0 {
        true
    } else if starts_at(t, pos, t.len() as int, "<!--"@) {
        match first_match(t, pos, t.len() as int, "-->"@) {
            Some(e) => if pos < e + 3 <= t.len() {
                comments_from(t, e + 3)
            } else {
                false
            },
            None => false,
        }
    } else if is_ascii_ws(t[pos]) {
        comments_from(t, pos + 1)
    } else {
        false
    }
}

/// The text holds only comments and white space.
pub open spec fn only_comments(s: Seq<char>) -> bool {
    trim(s).len() == 0 || comments_from(trim(s), 0)
}

pub proof fn lemma_first_match_range(s: Seq<char>, lo: int, hi: int, p: Seq<char>)
    ensures
        first_match(s, lo, hi, p) matches Some(e) ==> lo <= e,
    decreases hi + 1 - lo,
{
    if lo <= hi && !starts_at(s, lo, hi, p) {
        lemma_first_match_range(s, lo + 1, hi, p);
    }
}

/// Check whether `s[lo..hi]` holds only XML comments and white space.
pub fn is_only_comments(s: &[char], lo: usize, hi: usize) -> (b: bool)
    requires
        lo <= hi <= s@.len(),
    ensures
        b == only_comments(s@.subrange(lo as int, hi as int)),
{
    let (a, z) = trim_bounds(s, lo, hi);
    if a == z {
        return true;
    }
    let mut t: Vec<char> = Vec::new();
    let mut i = a;
    while i < z
        invariant
            a <= i <= z <= s@.len(),
            t@ == s@.subrange(a as int, i as int),
        decreases z - i,
    {
        t.push(s[i]);
        assert(t@ =~= s@.subrange(a as int, i + 1));
        i = i + 1;
    }
    let ghost tv = t@;
    let open = lit("<!--");
    let close = lit("-->");
    let n = t.len();
    let mut pos: usize = 0;
    while pos < n
        invariant
            n == tv.len(),
            n > 0,
            tv == trim(s@.subrange(lo as int, hi as int)),
            t@ == tv,
            open@ == "<!--"@,
            close@ == "-->"@,
            0 <= pos,
            comments_from(tv, 0) == comments_from(tv, pos as int),
        decreases n - pos,
    {
        if starts_with_at(t.as_slice(), pos, n, open.as_slice()) {
            match find_from(t.as_slice(), pos, n, close.as_slice()) {
                Some(e) => {
                    proof {
                        lemma_first_match_range(tv, pos as int, n as int, "-->"@);
                        reveal_strlit("-->");
                        assert(starts_at(tv, pos as int, n as int, "<!--"@));
                        assert(first_match(tv, pos as int, n as int, "-->"@) == Some(e as int));
                        assert(pos < e + 3 <= n);
                        assert(comments_from(tv, pos as int) == comments_from(tv, e + 3));
                    }
                    pos = e + 3;
                },
                None => {
                    return false;
                },
            }
        } else if is_ascii_whitespace(t[pos]) {
            assert(comments_from(tv, pos as int) == comments_from(tv, pos + 1));
            pos = pos + 1;
        } else {
            return false;
        }
    }
    true
}

} // verus!
