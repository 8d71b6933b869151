//! Convert any Unicode string to an ASCII "slug", useful for file names and
//! URL components: only ASCII letters and digits survive, every run of other
//! characters becomes a single `'-'`, and no `'-'` stands at either end.

use vstd::prelude::*;

pub mod model;

use crate::model::{expand_all, feed, slug_of, step, trim_trailing, valid_slug};

verus! {

/// The ASCII transliteration that `deunicode` assigns to a single code
/// point, when it has one. The table is fixed, so the result depends on the
/// character alone; its content is not modelled here.
pub uninterp spec fn translit_of(c: char) -> Option<Seq<char>>;

/// Relies on `deunicode::deunicode_char`: a pure lookup in a fixed table,
/// returning an ASCII transliteration of the character, or `None` when the
/// table has no entry. The table stores each entry's byte length in a `u8`,
/// so no transliteration holds more than 255 characters.
pub assume_specification[ deunicode::deunicode_char ](ch: char) -> (r: Option<&'static str>)
    ensures
        match r {
            Some(s) => translit_of(ch) == Some(s@),
            None => translit_of(ch) is None,
        },
        r matches Some(s) ==> s@.len() <= 255,
;

/// Relies on `String`'s `FromIterator<char>` impl: collecting characters
/// yields the string of exactly those characters, in order.
#[verifier::external_body]
fn chars_to_string(v: Vec<char>) -> (r: String)
    ensures
        r@ == v@,
{
    v.into_iter().collect()
}

/// Feed one character of the expanded stream into the slug being built:
/// letters and digits are kept, anything else collapses into a single
/// separator.
fn push_char(out: &mut Vec<char>, prev_sep: &mut bool, c: char)
    ensures
        ({
            let st = step(old(out)@, *old(prev_sep), c);
            final(out)@ == st.0 && *final(prev_sep) == st.1
        }),
{
    if ('a' <= c && c <= 'z') || ('0' <= c && c <= '9') || ('A' <= c && c <= 'Z') {
        out.push(c);
        *prev_sep = false;
    } else if !*prev_sep {
        out.push('-');
        *prev_sep = true;
    }
}

/// Convert any Unicode string to an ASCII "slug" usable in URLs and file
/// names.
///
/// The result consists of ASCII letters, digits and `'-'`; it never holds
/// two `'-'` in a row and never starts or ends with `'-'`. ASCII letters
/// keep their case; characters outside ASCII are transliterated through
/// `deunicode`, and characters without a transliteration become
/// separators.
pub fn slugify(s: &str) -> (r: String)
    ensures
        r@ == slug_of(s@),
        valid_slug(r@),
        r@.len() <= 255 * s@.len(),
{
    let mut out: Vec<char> = Vec::new();
    let mut prev_sep: bool = true;
    proof {
        assert(s@.take(0) =~= Seq::<char>::empty());
        assert(expand_all(Seq::<char>::empty()) == Seq::<char>::empty());
    }
    for c in it: s.chars()
        invariant
            it.seq() == s@,
            expand_all(s@.take(it.index())).len() <= 255 * it.index(),
            ({
                let st = feed(Seq::empty(), true, expand_all(s@.take(it.index())));
                out@ == st.0 && prev_sep == st.1
            }),
    {
        let ghost i = it.index();
        let ghost pre = s@.take(i);
        let ghost st_pre = feed(Seq::empty(), true, expand_all(pre));
        if (c as u32) < 128 {
            push_char(&mut out, &mut prev_sep, c);
            proof {
                crate::model::lemma_feed_one(st_pre.0, st_pre.1, c);
                assert(crate::model::expand(c) =~= seq![c]);
            }
        } else {
            match deunicode::deunicode_char(c) {
                Some(frag) => {
                    proof {
                        assert(frag@.take(0) =~= Seq::<char>::empty());
                    }
                    for fc in fit: frag.chars()
                        invariant
                            fit.seq() == frag@,
                            translit_of(c) == Some(frag@),
                            ({
                                let st = feed(st_pre.0, st_pre.1, frag@.take(fit.index()));
                                out@ == st.0 && prev_sep == st.1
                            }),
                    {
                        let ghost j = fit.index();
                        let ghost st_j = feed(st_pre.0, st_pre.1, frag@.take(j));
                        push_char(&mut out, &mut prev_sep, fc);
                        proof {
                            assert(frag@.take(j + 1) =~= frag@.take(j) + seq![fc]);
                            crate::model::lemma_feed_append(
                                st_pre.0,
                                st_pre.1,
                                frag@.take(j),
                                seq![fc],
                            );
                            crate::model::lemma_feed_one(st_j.0, st_j.1, fc);
                        }
                    }
                    proof {
                        assert(frag@.take(frag@.len() as int) =~= frag@);
                        assert(crate::model::expand(c) == frag@);
                    }
                },
                None => {
                    push_char(&mut out, &mut prev_sep, '-');
                    proof {
                        crate::model::lemma_feed_one(st_pre.0, st_pre.1, '-');
                        assert(crate::model::expand(c) =~= seq!['-']);
                    }
                },
            }
        }
        proof {
            assert(s@.take(i + 1) =~= pre.push(c));
            crate::model::lemma_expand_all_push(pre, c);
            crate::model::lemma_feed_append(
                Seq::empty(),
                true,
                expand_all(pre),
                crate::model::expand(c),
            );
            assert(crate::model::expand(c).len() <= 255);
        }
    }
    proof {
        assert(s@.take(s@.len() as int) =~= s@);
        crate::model::lemma_feed_len(Seq::empty(), true, expand_all(s@));
    }
    if out.len() > 0 && out[out.len() - 1] == '-' {
        out.pop();
        proof {
            assert(out@ =~= trim_trailing(feed(Seq::empty(), true, expand_all(s@)).0));
        }
    }
    proof {
        crate::model::lemma_slug_of_valid(s@);
    }
    chars_to_string(out)
}

} // verus!

