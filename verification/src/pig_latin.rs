//! Pig-latin transformation of whitespace-separated words: a word that
//! starts with a vowel gains `-hay`; any other word moves its first
//! letter to the end, between `-` and `ay`.

use crate::text::{
    chars_of, lemma_words_nonempty_at, split_words, string_from_chars, string_views, words,
};
use vstd::prelude::*;

verus! {

/// An ASCII letter.
pub open spec fn is_ascii_alpha(c: char) -> bool {
    ('a' as u32 <= c as u32 && c as u32 <= 'z' as u32) || ('A' as u32 <= c as u32 && c as u32
        <= 'Z' as u32)
}

/// An ASCII vowel, of either case.
pub open spec fn is_vowel(c: char) -> bool {
    c == 'a' || c == 'e' || c == 'i' || c == 'o' || c == 'u' || c == 'A' || c == 'E' || c == 'I'
        || c == 'O' || c == 'U'
}

/// One word after the transformation.
pub open spec fn pig_word(w: Seq<char>) -> Seq<char>
    recommends
        w.len() > 0,
{
    if is_vowel(w[0]) {
        w + seq!['-', 'h', 'a', 'y']
    } else {
        w.drop_first() + seq!['-', w[0], 'a', 'y']
    }
}

/// The transformed words, joined by single spaces.
pub open spec fn pig_join(ws: Seq<Seq<char>>) -> Seq<char>
    decreases ws.len(),
{
    if ws.len() == 0 {
        Seq::empty()
    } else if ws.len() == 1 {
        pig_word(ws[0])
    } else {
        pig_join(ws.drop_last()) + seq![' '] + pig_word(ws.last())
    }
}

/// Executable test for `is_vowel`.
fn vowel(c: char) -> (r: bool)
    ensures
        r == is_vowel(c),
{
    c == 'a' || c == 'e' || c == 'i' || c == 'o' || c == 'u' || c == 'A' || c == 'E' || c == 'I'
        || c == 'O' || c == 'U'
}

/// Rewrites every whitespace-separated word of `s` into pig latin and
/// joins the results with single spaces; runs of whitespace collapse.
/// Every word must start with an ASCII letter.
pub fn to_pig_latin(s: &str) -> (r: String)
    requires
        forall|i: int| 0 <= i < words(s@).len() ==> is_ascii_alpha(#[trigger] words(s@)[i][0]),
    ensures
        r@ == pig_join(words(s@)),
{
    let ws = split_words(s);
    let mut out: Vec<char> = Vec::new();
    let mut k: usize = 0;
    proof {
        assert(words(s@).take(0) =~= Seq::<Seq<char>>::empty());
        assert(out@ =~= pig_join(words(s@).take(0)));
    }
    while k < ws.len()
        invariant
            k <= ws@.len(),
            string_views(ws@) =~= words(s@),
            out@ =~= pig_join(words(s@).take(k as int)),
        decreases ws@.len() - k,
    {
        let ghost all = words(s@);
        if k > 0 {
            out.push(' ');
        }
        let w = chars_of(ws[k].as_str());
        proof {
            assert(w@ == all[k as int]);
            lemma_words_nonempty_at(s@, k as int);
        }
        let ghost base = out@;
        let first = w[0];
        if vowel(first) {
            let mut t: usize = 0;
            while t < w.len()
                invariant
                    t <= w@.len(),
                    out@ =~= base + w@.take(t as int),
                decreases w@.len() - t,
            {
                out.push(w[t]);
                proof {
                    assert(w@.take(t + 1) =~= w@.take(t as int).push(w@[t as int]));
                }
                t = t + 1;
            }
            out.push('-');
            out.push('h');
            out.push('a');
            out.push('y');
            proof {
                assert(w@.take(w@.len() as int) =~= w@);
                assert(out@ =~= base + pig_word(w@));
            }
        } else {
            let mut t: usize = 1;
            while t < w.len()
                invariant
                    1 <= t <= w@.len(),
                    out@ =~= base + w@.subrange(1, t as int),
                decreases w@.len() - t,
            {
                out.push(w[t]);
                proof {
                    assert(w@.subrange(1, t + 1) =~= w@.subrange(1, t as int).push(w@[t as int]));
                }
                t = t + 1;
            }
            out.push('-');
            out.push(first);
            out.push('a');
            out.push('y');
            proof {
                assert(w@.subrange(1, w@.len() as int) =~= w@.drop_first());
                assert(out@ =~= base + pig_word(w@));
            }
        }
        proof {
            if k == 0 {
                assert(all.take(1).len() == 1);
                assert(all.take(1)[0] == all[0]);
                assert(out@ =~= pig_join(all.take(1)));
            } else {
                assert(all.take(k + 1).drop_last() =~= all.take(k as int));
                assert(all.take(k + 1).last() == all[k as int]);
                assert(out@ =~= pig_join(all.take(k + 1)));
            }
        }
        k = k + 1;
    }
    proof {
        assert(words(s@).take(words(s@).len() as int) =~= words(s@));
    }
    string_from_chars(&out)
}

} // verus!
