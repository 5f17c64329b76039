//! Small verified string helpers for qualified transition ids.
//!
//! A transition is addressed globally by the id `"<room>[<name>]"`.  This
//! module builds such ids, splits them back into their room and name parts,
//! and tests name prefixes (doorway orientation classes are derived from the
//! transition name's prefix).

use vstd::prelude::*;
use vstd::string::StrSliceExecFns;
use vstd::string::StringExecFns;

verus! {

/// Whether `p` is a prefix of `s`.
pub open spec fn spec_starts_with(s: Seq<char>, p: Seq<char>) -> bool {
    p.len() <= s.len() && s.subrange(0, p.len() as int) == p
}

/// Prefix test on string slices.
pub fn str_starts_with(s: &str, p: &str) -> (b: bool)
    ensures
        b == spec_starts_with(s@, p@),
{
    let sl = s.unicode_len();
    let pl = p.unicode_len();
    if pl > sl {
        return false;
    }
    let mut i: usize = 0;
    while i < pl
        invariant
            0 <= i <= pl,
            pl == p@.len(),
            sl == s@.len(),
            pl <= sl,
            forall|j: int| 0 <= j < i ==> s@[j] == p@[j],
        decreases pl - i,
    {
        if s.get_char(i) != p.get_char(i) {
            assert(!spec_starts_with(s@, p@)) by {
                assert(s@.subrange(0, p@.len() as int)[i as int] != p@[i as int]);
            }
            return false;
        }
        i = i + 1;
    }
    assert(s@.subrange(0, p@.len() as int) =~= p@);
    true
}

/// Index of the first `'['` in `s`, or `s.len()` if there is none.
pub open spec fn lbracket_pos(s: Seq<char>) -> int
    decreases s.len(),
{
    if s.len() == 0 {
        0
    } else if s[0] == '[' {
        0
    } else {
        1 + lbracket_pos(s.subrange(1, s.len() as int))
    }
}

pub proof fn lemma_lbracket_pos(s: Seq<char>)
    ensures
        0 <= lbracket_pos(s) <= s.len(),
        forall|j: int| 0 <= j < lbracket_pos(s) ==> s[j] != '[',
        lbracket_pos(s) < s.len() ==> s[lbracket_pos(s)] == '[',
    decreases s.len(),
{
    if s.len() == 0 {
    } else if s[0] == '[' {
    } else {
        let t = s.subrange(1, s.len() as int);
        lemma_lbracket_pos(t);
        assert forall|j: int| 0 <= j < lbracket_pos(s) implies s[j] != '[' by {
            if j > 0 {
                assert(t[j - 1] == s[j]);
            }
        }
        if lbracket_pos(s) < s.len() {
            assert(t[lbracket_pos(s) - 1] == s[lbracket_pos(s)]);
        }
    }
}

/// `s` with every trailing `']'` removed.
pub open spec fn strip_trailing_rbrackets(s: Seq<char>) -> Seq<char>
    decreases s.len(),
{
    if s.len() > 0 && s.last() == ']' {
        strip_trailing_rbrackets(s.drop_last())
    } else {
        s
    }
}

pub proof fn lemma_strip_trailing(s: Seq<char>, k: int)
    requires
        0 <= k <= s.len(),
        forall|j: int| k <= j < s.len() ==> s[j] == ']',
        k == 0 || s[k - 1] != ']',
    ensures
        strip_trailing_rbrackets(s) == s.subrange(0, k),
    decreases s.len(),
{
    if s.len() == k {
        assert(s.subrange(0, k) =~= s);
    } else {
        assert(s.last() == ']');
        let t = s.drop_last();
        assert(t =~= s.subrange(0, s.len() - 1));
        lemma_strip_trailing(t, k);
        assert(t.subrange(0, k) =~= s.subrange(0, k));
    }
}

/// The room and name parts of a qualified transition id, or `None` when the
/// id has no `'['`.  The name part is the text after the first `'['` with
/// trailing `']'` characters removed.
pub open spec fn spec_transition_info(s: Seq<char>) -> Option<(Seq<char>, Seq<char>)> {
    let i = lbracket_pos(s);
    if i == s.len() {
        None
    } else {
        Some((s.subrange(0, i), strip_trailing_rbrackets(s.subrange(i + 1, s.len() as int))))
    }
}

/// Splits a qualified transition id into its room id and transition name.
pub fn transition_info(s: &str) -> (r: Option<(String, String)>)
    ensures
        match r {
            Some(p) => spec_transition_info(s@) == Some((p.0@, p.1@)),
            None => spec_transition_info(s@) is None,
        },
{
    proof {
        lemma_lbracket_pos(s@);
    }
    let len = s.unicode_len();
    let mut i: usize = 0;
    while i < len && s.get_char(i) != '['
        invariant
            0 <= i <= len,
            len == s@.len(),
            forall|j: int| 0 <= j < i ==> s@[j] != '[',
            lbracket_pos(s@) >= i,
        decreases len - i,
    {
        proof {
            lemma_lbracket_pos(s@);
        }
        i = i + 1;
    }
    proof {
        lemma_lbracket_pos(s@);
    }
    if i == len {
        return None;
    }
    assert(lbracket_pos(s@) == i);
    let room = s.substring_char(0, i).to_owned();
    let mut end: usize = len;
    while end > i + 1 && s.get_char(end - 1) == ']'
        invariant
            i + 1 <= end <= len,
            len == s@.len(),
            i < len,
            forall|j: int| end <= j < len ==> s@[j] == ']',
        decreases end,
    {
        end = end - 1;
    }
    let name = s.substring_char(i + 1, end).to_owned();
    proof {
        let suffix = s@.subrange(i + 1, s@.len() as int);
        let k = end - (i + 1);
        assert forall|j: int| k <= j < suffix.len() implies suffix[j] == ']' by {
            assert(suffix[j] == s@[j + i + 1]);
        }
        if k > 0 {
            assert(suffix[k - 1] == s@[end - 1]);
        }
        lemma_strip_trailing(suffix, k as int);
        assert(suffix.subrange(0, k as int) =~= s@.subrange(i + 1, end as int));
    }
    Some((room, name))
}

/// Builds the qualified id `"<room>[<name>]"`.
pub fn qualified_id(room: &str, name: &str) -> (r: String)
    ensures
        r@ == room@ + "["@ + name@ + "]"@,
{
    let mut out = room.to_owned();
    out.append("[");
    out.append(name);
    out.append("]");
    out
}

} // verus!
