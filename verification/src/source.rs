//! The text being parsed: its characters, and the byte offset of each character
//! (spans in the syntax tree are byte offsets, as `str` indices are).
use vstd::prelude::*;

use crate::ast::Span;
use crate::text::{byte_len, char_width, chars_of, unicode_len_bytes};

verus! {

/// Headroom kept above the byte length of a source, so that error spans a few bytes past a
/// position (such as `start + 50`) fit in `usize`.
pub const SPAN_ROOM: usize = 64;

/// `offs[i]` is the byte offset of character `i` of `s` (and `offs[s.len()]` its byte length),
/// with room above it for error spans.
pub open spec fn offs_wf(s: Seq<char>, offs: Seq<usize>) -> bool {
    &&& offs.len() == s.len() + 1
    &&& forall|i: int| 0 <= i <= s.len() ==> #[trigger] offs[i] == byte_len(s.take(i))
    &&& forall|i: int, j: int| 0 <= i <= j <= s.len() ==> offs[i] <= offs[j]
    &&& offs[s.len() as int] + SPAN_ROOM <= usize::MAX
}

/// The byte offsets of the characters of `s`.
pub fn offsets_of(s: &[char]) -> (offs: Vec<usize>)
    requires
        byte_len(s@) + SPAN_ROOM <= usize::MAX,
    ensures
        offs_wf(s@, offs@),
{
    let mut offs: Vec<usize> = Vec::new();
    offs.push(0);
    let mut acc: usize = 0;
    let mut i: usize = 0;
    assert(s@.take(0) =~= Seq::<char>::empty());
    proof {
        lemma_byte_len_prefix_le(s@, 0, s@.len() as int);
        assert(s@.take(s@.len() as int) =~= s@);
    }
    while i < s.len()
        invariant
            0 <= i <= s@.len(),
            offs@.len() == i + 1,
            acc == offs@[i as int],
            byte_len(s@) + SPAN_ROOM <= usize::MAX,
            forall|k: int| 0 <= k <= i ==> #[trigger] offs@[k] == byte_len(s@.take(k)),
            forall|k: int, j: int| 0 <= k <= j <= i ==> offs@[k] <= offs@[j],
        decreases s@.len() - i,
    {
        proof {
            unicode_len_bytes(s@, (i + 1) as int);
            lemma_byte_len_prefix_le(s@, (i + 1) as int, s@.len() as int);
            assert(s@.take(s@.len() as int) =~= s@);
        }
        acc = acc + char_width(s[i]);
        offs.push(acc);
        i = i + 1;
    }
    assert(s@.take(s@.len() as int) =~= s@);
    offs
}

/// Byte lengths of prefixes grow with the prefix.
pub proof fn lemma_byte_len_prefix_le(s: Seq<char>, i: int, j: int)
    requires
        0 <= i <= j <= s.len(),
    ensures
        byte_len(s.take(i)) <= byte_len(s.take(j)),
    decreases j - i,
{
    if i < j {
        lemma_byte_len_prefix_le(s, i, j - 1);
        unicode_len_bytes(s, j);
    }
}

/// The characters of `input` and their byte offsets.
pub fn source_of(input: &str) -> (r: (Vec<char>, Vec<usize>))
    requires
        byte_len(input@) + SPAN_ROOM <= usize::MAX,
    ensures
        r.0@ == input@,
        offs_wf(r.0@, r.1@),
{
    let chars = chars_of(input);
    let offs = offsets_of(chars.as_slice());
    (chars, offs)
}

/// The span from character `a` to character `b`, in bytes.
pub fn span_of(offs: &[usize], a: usize, b: usize) -> (sp: Span)
    requires
        a <= b < offs@.len(),
    ensures
        sp.start == offs@[a as int],
        sp.end == offs@[b as int],
{
    Span::new(offs[a], offs[b])
}

} // verus!
