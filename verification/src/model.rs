//! The mathematical model of slug construction: a single left-to-right pass
//! over a stream of characters, collapsing every run of non-alphanumeric
//! characters into one `'-'`, suppressing a leading separator, and trimming a
//! trailing one.

use vstd::prelude::*;

verus! {

/// A character that is emitted into the slug unchanged: an ASCII letter
/// (either case) or an ASCII digit. ASCII uppercase is deliberately kept
/// as-is rather than folded to lowercase.
pub open spec fn is_keep(c: char) -> bool {
    ('a' <= c && c <= 'z') || ('0' <= c && c <= '9') || ('A' <= c && c <= 'Z')
}

/// One step of the pass. The state is the slug built so far together with
/// the flag "the previous emitted character was a separator" (initially
/// true, which suppresses a leading separator).
pub open spec fn step(acc: Seq<char>, prev_sep: bool, c: char) -> (Seq<char>, bool) {
    if is_keep(c) {
        (acc.push(c), false)
    } else if prev_sep {
        (acc, true)
    } else {
        (acc.push('-'), true)
    }
}

/// Run the pass over a whole character stream from a given state.
pub open spec fn feed(acc: Seq<char>, prev_sep: bool, cs: Seq<char>) -> (Seq<char>, bool)
    decreases cs.len(),
{
    if cs.len() == 0 {
        (acc, prev_sep)
    } else {
        let st = step(acc, prev_sep, cs[0]);
        feed(st.0, st.1, cs.drop_first())
    }
}

/// What one input character contributes to the stream that the pass
/// consumes: an ASCII character stands for itself; any other character is
/// replaced by its transliteration, or by a single separator when the
/// table has no entry for it.
pub open spec fn expand(c: char) -> Seq<char> {
    if (c as u32) < 128 {
        seq![c]
    } else {
        match crate::translit_of(c) {
            Some(frag) => frag,
            None => seq!['-'],
        }
    }
}

/// The full stream the pass consumes for a given input.
pub open spec fn expand_all(cs: Seq<char>) -> Seq<char>
    decreases cs.len(),
{
    if cs.len() == 0 {
        Seq::empty()
    } else {
        expand(cs[0]) + expand_all(cs.drop_first())
    }
}

/// Remove a trailing separator, if any.
pub open spec fn trim_trailing(s: Seq<char>) -> Seq<char> {
    if s.len() > 0 && s[s.len() - 1] == '-' {
        s.drop_last()
    } else {
        s
    }
}

/// The slug of an input: expand every character, run the collapsing pass
/// from the initial state, and trim a trailing separator.
pub open spec fn slug_of(cs: Seq<char>) -> Seq<char> {
    trim_trailing(feed(Seq::empty(), true, expand_all(cs)).0)
}

/// Expanding a stream one character longer appends that character's
/// expansion.
pub proof fn lemma_expand_all_push(cs: Seq<char>, c: char)
    ensures
        expand_all(cs.push(c)) == expand_all(cs) + expand(c),
    decreases cs.len(),
{
    if cs.len() == 0 {
        let s = cs.push(c);
        assert(s[0] == c);
        assert(s.drop_first() =~= Seq::<char>::empty());
        assert(expand_all(s.drop_first()) == Seq::<char>::empty());
        assert(expand_all(cs.push(c)) =~= expand_all(cs) + expand(c));
    } else {
        assert(cs.push(c).drop_first() =~= cs.drop_first().push(c));
        lemma_expand_all_push(cs.drop_first(), c);
        assert(expand_all(cs.push(c)) =~= expand_all(cs) + expand(c));
    }
}

/// The pass over a concatenation is the pass over the first part, then the
/// pass over the second from the state the first part left.
pub proof fn lemma_feed_append(acc: Seq<char>, prev_sep: bool, a: Seq<char>, b: Seq<char>)
    ensures
        feed(acc, prev_sep, a + b) == feed(feed(acc, prev_sep, a).0, feed(acc, prev_sep, a).1, b),
    decreases a.len(),
{
    if a.len() == 0 {
        assert(a + b =~= b);
    } else {
        let st = step(acc, prev_sep, a[0]);
        assert((a + b).drop_first() =~= a.drop_first() + b);
        lemma_feed_append(st.0, st.1, a.drop_first(), b);
    }
}

/// A well-formed slug: only ASCII letters, digits and `'-'`; no two
/// adjacent separators; neither starting nor ending with a separator.
pub open spec fn valid_slug(s: Seq<char>) -> bool {
    &&& forall|i: int| 0 <= i < s.len() ==> is_keep(#[trigger] s[i]) || s[i] == '-'
    &&& forall|i: int| 0 <= i < s.len() - 1 ==> !(#[trigger] s[i] == '-' && s[i + 1] == '-')
    &&& s.len() > 0 ==> s[0] != '-'
    &&& s.len() > 0 ==> s[s.len() - 1] != '-'
}

/// Feeding a single character is one step.
pub proof fn lemma_feed_one(acc: Seq<char>, prev_sep: bool, c: char)
    ensures
        feed(acc, prev_sep, seq![c]) == step(acc, prev_sep, c),
{
    assert(seq![c].drop_first() =~= Seq::<char>::empty());
    let st = step(acc, prev_sep, c);
    assert(feed(st.0, st.1, Seq::<char>::empty()) == st);
}

/// The invariant the pass maintains: the accumulator is a slug except that
/// it may end with one separator, and the flag records exactly whether it
/// is empty or ends with one.
pub open spec fn state_inv(acc: Seq<char>, prev_sep: bool) -> bool {
    &&& forall|i: int| 0 <= i < acc.len() ==> is_keep(#[trigger] acc[i]) || acc[i] == '-'
    &&& forall|i: int| 0 <= i < acc.len() - 1 ==> !(#[trigger] acc[i] == '-' && acc[i + 1] == '-')
    &&& acc.len() > 0 ==> acc[0] != '-'
    &&& prev_sep <==> (acc.len() == 0 || acc[acc.len() - 1] == '-')
}

pub proof fn lemma_step_inv(acc: Seq<char>, prev_sep: bool, c: char)
    requires
        state_inv(acc, prev_sep),
    ensures
        state_inv(step(acc, prev_sep, c).0, step(acc, prev_sep, c).1),
{
}

pub proof fn lemma_feed_inv(acc: Seq<char>, prev_sep: bool, cs: Seq<char>)
    requires
        state_inv(acc, prev_sep),
    ensures
        state_inv(feed(acc, prev_sep, cs).0, feed(acc, prev_sep, cs).1),
    decreases cs.len(),
{
    if cs.len() > 0 {
        let st = step(acc, prev_sep, cs[0]);
        lemma_step_inv(acc, prev_sep, cs[0]);
        lemma_feed_inv(st.0, st.1, cs.drop_first());
    }
}

/// Every slug is well formed: only ASCII letters, digits and single
/// separators, with no separator at either end.
pub proof fn lemma_slug_of_valid(cs: Seq<char>)
    ensures
        valid_slug(slug_of(cs)),
{
    lemma_feed_inv(Seq::empty(), true, expand_all(cs));
}

/// The pass emits at most one character per character consumed.
pub proof fn lemma_feed_len(acc: Seq<char>, prev_sep: bool, cs: Seq<char>)
    ensures
        feed(acc, prev_sep, cs).0.len() <= acc.len() + cs.len(),
    decreases cs.len(),
{
    if cs.len() > 0 {
        let st = step(acc, prev_sep, cs[0]);
        lemma_feed_len(st.0, st.1, cs.drop_first());
    }
}

/// The slug is never longer than the expanded character stream; the
/// normalization itself never grows its input.
pub proof fn lemma_slug_of_len(cs: Seq<char>)
    ensures
        slug_of(cs).len() <= expand_all(cs).len(),
{
    lemma_feed_len(Seq::empty(), true, expand_all(cs));
}

/// An all-ASCII stream expands to itself.
pub proof fn lemma_expand_all_ascii(cs: Seq<char>)
    requires
        forall|i: int| 0 <= i < cs.len() ==> (#[trigger] cs[i] as u32) < 128,
    ensures
        expand_all(cs) == cs,
    decreases cs.len(),
{
    if cs.len() == 0 {
        assert(expand_all(cs) =~= cs);
    } else {
        lemma_expand_all_ascii(cs.drop_first());
        assert(expand(cs[0]) =~= seq![cs[0]]);
        assert(expand_all(cs) =~= cs);
    }
}

/// On an ASCII-only input the slug is never longer than the input.
pub proof fn lemma_slug_of_len_ascii(cs: Seq<char>)
    requires
        forall|i: int| 0 <= i < cs.len() ==> (#[trigger] cs[i] as u32) < 128,
    ensures
        slug_of(cs).len() <= cs.len(),
{
    lemma_expand_all_ascii(cs);
    lemma_slug_of_len(cs);
}

/// Over a stream that is already in slug shape — only kept characters and
/// separators, no two separators adjacent, and not opening with a
/// separator the pass could swallow — the pass copies its input verbatim.
pub proof fn lemma_feed_exact(acc: Seq<char>, prev_sep: bool, cs: Seq<char>)
    requires
        forall|i: int| 0 <= i < cs.len() ==> is_keep(#[trigger] cs[i]) || cs[i] == '-',
        forall|i: int| 0 <= i < cs.len() - 1 ==> !(#[trigger] cs[i] == '-' && cs[i + 1] == '-'),
        cs.len() > 0 && cs[0] == '-' ==> !prev_sep,
    ensures
        feed(acc, prev_sep, cs).0 == acc + cs,
        feed(acc, prev_sep, cs).1 == if cs.len() == 0 {
            prev_sep
        } else {
            cs[cs.len() - 1] == '-'
        },
    decreases cs.len(),
{
    if cs.len() == 0 {
        assert(acc + cs =~= acc);
    } else {
        let st = step(acc, prev_sep, cs[0]);
        assert(st.0 == acc.push(cs[0]));
        lemma_feed_exact(st.0, st.1, cs.drop_first());
        assert(acc.push(cs[0]) + cs.drop_first() =~= acc + cs);
    }
}

/// Idempotence: a string that is already a well-formed slug comes back
/// unchanged (in particular, ASCII uppercase letters stay as they are).
pub proof fn lemma_slug_of_idempotent(s: Seq<char>)
    requires
        valid_slug(s),
    ensures
        slug_of(s) == s,
{
    assert(forall|i: int| 0 <= i < s.len() ==> (#[trigger] s[i] as u32) < 128);
    lemma_expand_all_ascii(s);
    lemma_feed_exact(Seq::empty(), true, s);
    assert(Seq::empty() + s =~= s);
}

/// The empty input yields the empty slug.
pub proof fn lemma_slug_of_empty()
    ensures
        slug_of(Seq::<char>::empty()) == Seq::<char>::empty(),
{
    assert(expand_all(Seq::<char>::empty()) =~= Seq::<char>::empty());
    assert(slug_of(Seq::<char>::empty()) =~= Seq::<char>::empty());
}

} // verus!
