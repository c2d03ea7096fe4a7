//! Shared text machinery: splitting into whitespace-separated words and
//! into lines, substring containment, lexicographic ordering of character
//! sequences, and the few executable conversions the other modules build
//! on.

use vstd::prelude::*;
use vstd::string::StrSliceExecFns;

verus! {

/// The whitespace characters recognised when splitting into words: the
/// ASCII whitespace set.
pub open spec fn is_space_char(c: char) -> bool {
    c == ' ' || c == '\t' || c == '\n' || c == '\r' || c == '\x0c'
}

/// Executable test for `is_space_char`.
pub fn is_space(c: char) -> (r: bool)
    ensures
        r == is_space_char(c),
{
    c == ' ' || c == '\t' || c == '\n' || c == '\r' || c == '\x0c'
}

/// The length of the leading run of non-whitespace characters.
pub open spec fn word_len(s: Seq<char>) -> nat
    decreases s.len(),
{
    if s.len() == 0 || is_space_char(s[0]) {
        0
    } else {
        1 + word_len(s.drop_first())
    }
}

/// The leading word run never reaches past the end.
pub proof fn lemma_word_len_le(s: Seq<char>)
    ensures
        word_len(s) <= s.len(),
    decreases s.len(),
{
    if s.len() > 0 && !is_space_char(s[0]) {
        lemma_word_len_le(s.drop_first());
    }
}

/// The whitespace-separated words of `s`, in order: the maximal nonempty
/// runs of non-whitespace characters.
pub open spec fn words(s: Seq<char>) -> Seq<Seq<char>>
    decreases s.len(),
    via words_decreases
{
    if s.len() == 0 {
        Seq::empty()
    } else if is_space_char(s[0]) {
        words(s.drop_first())
    } else {
        seq![s.take(word_len(s) as int)] + words(s.skip(word_len(s) as int))
    }
}

#[via_fn]
proof fn words_decreases(s: Seq<char>) {
    if s.len() > 0 && !is_space_char(s[0]) {
        lemma_word_len_le(s);
    }
}

/// Each single word is nonempty.
pub proof fn lemma_words_nonempty_at(s: Seq<char>, i: int)
    requires
        0 <= i < words(s).len(),
    ensures
        words(s)[i].len() > 0,
    decreases s.len(),
{
    if s.len() == 0 {
    } else if is_space_char(s[0]) {
        lemma_words_nonempty_at(s.drop_first(), i);
    } else {
        lemma_word_len_le(s);
        assert(word_len(s) == 1 + word_len(s.drop_first()));
        if i == 0 {
            assert(words(s)[0] == s.take(word_len(s) as int));
        } else {
            lemma_words_nonempty_at(s.skip(word_len(s) as int), i - 1);
            assert(words(s)[i] == words(s.skip(word_len(s) as int))[i - 1]);
        }
    }
}

/// If `s` starts with a whitespace character, dropping it drops no word.
pub proof fn lemma_words_skip_space(s: Seq<char>)
    requires
        s.len() > 0,
        is_space_char(s[0]),
    ensures
        words(s.skip(1)) =~= words(s),
{
    assert(s.drop_first() =~= s.skip(1));
}

/// If the characters at `0..k` of `s` are non-whitespace and `s` either
/// ends at `k` or has whitespace there, then the leading word is exactly
/// those `k` characters.
pub proof fn lemma_word_len_is(s: Seq<char>, k: int)
    requires
        0 < k <= s.len(),
        forall|t: int| 0 <= t < k ==> !is_space_char(s[t]),
        k == s.len() || is_space_char(s[k]),
    ensures
        word_len(s) == k,
    decreases k,
{
    assert(!is_space_char(s[0]));
    assert(word_len(s) == 1 + word_len(s.drop_first()));
    if k == 1 {
        if s.len() > 1 {
            assert(is_space_char(s.drop_first()[0]));
        } else {
            assert(s.drop_first().len() == 0);
        }
        assert(word_len(s.drop_first()) == 0);
    } else {
        assert(forall|t: int| 0 <= t < k - 1 ==> s.drop_first()[t] == s[t + 1]);
        if k < s.len() {
            assert(s.drop_first()[k - 1] == s[k]);
        }
        lemma_word_len_is(s.drop_first(), k - 1);
    }
}

/// Splitting off the leading word: with `k` its length, the words of `s`
/// are that word followed by the words of the rest.
pub proof fn lemma_words_first(s: Seq<char>, k: int)
    requires
        0 < k <= s.len(),
        forall|t: int| 0 <= t < k ==> !is_space_char(s[t]),
        k == s.len() || is_space_char(s[k]),
    ensures
        words(s) =~= seq![s.take(k)] + words(s.skip(k)),
{
    lemma_word_len_is(s, k);
}

/// Whether `needle` occurs in `hay` as a contiguous run.
pub open spec fn contains_seq(hay: Seq<char>, needle: Seq<char>) -> bool {
    exists|i: int|
        0 <= i && i + needle.len() <= hay.len() && #[trigger] hay.subrange(i, i + needle.len())
            =~= needle
}

/// The length of the leading run of characters before a line feed.
pub open spec fn line_len(s: Seq<char>) -> nat
    decreases s.len(),
{
    if s.len() == 0 || s[0] == '\n' {
        0
    } else {
        1 + line_len(s.drop_first())
    }
}

/// The leading line never reaches past the end.
pub proof fn lemma_line_len_le(s: Seq<char>)
    ensures
        line_len(s) <= s.len(),
    decreases s.len(),
{
    if s.len() > 0 && s[0] != '\n' {
        lemma_line_len_le(s.drop_first());
    }
}

/// A line terminated by a line feed also sheds one carriage return before
/// it, if there is one.
pub open spec fn strip_cr(l: Seq<char>) -> Seq<char> {
    if l.len() > 0 && l[l.len() - 1] == '\r' {
        l.drop_last()
    } else {
        l
    }
}

/// The lines of `s`: split at each line feed, shedding a carriage return
/// at the end of each terminated line, with no empty line after a final
/// line feed.
pub open spec fn lines_of(s: Seq<char>) -> Seq<Seq<char>>
    decreases s.len(),
    via lines_decreases
{
    if s.len() == 0 {
        Seq::empty()
    } else {
        let k = line_len(s) as int;
        if k == s.len() {
            seq![s]
        } else {
            seq![strip_cr(s.take(k))] + lines_of(s.skip(k + 1))
        }
    }
}

#[via_fn]
proof fn lines_decreases(s: Seq<char>) {
    lemma_line_len_le(s);
}

/// If the characters at `0..k` of `s` are not line feeds and `s` either
/// ends at `k` or has a line feed there, then the leading line run is
/// exactly `k` characters.
pub proof fn lemma_line_len_is(s: Seq<char>, k: int)
    requires
        0 <= k <= s.len(),
        forall|t: int| 0 <= t < k ==> s[t] != '\n',
        k == s.len() || s[k] == '\n',
    ensures
        line_len(s) == k,
    decreases k,
{
    if k == 0 {
    } else {
        assert(forall|t: int| 0 <= t < k - 1 ==> s.drop_first()[t] == s[t + 1]);
        lemma_line_len_is(s.drop_first(), k - 1);
    }
}

/// Of the given lines, those that contain `q`, in order.
pub open spec fn keep_matching(ls: Seq<Seq<char>>, q: Seq<char>) -> Seq<Seq<char>>
    decreases ls.len(),
{
    if ls.len() == 0 {
        Seq::empty()
    } else if contains_seq(ls[0], q) {
        seq![ls[0]] + keep_matching(ls.drop_first(), q)
    } else {
        keep_matching(ls.drop_first(), q)
    }
}

/// Of the given lines, those whose lowercase form contains the lowercase
/// form of `q`, in order.
pub open spec fn keep_matching_ci(ls: Seq<Seq<char>>, q: Seq<char>) -> Seq<Seq<char>>
    decreases ls.len(),
{
    if ls.len() == 0 {
        Seq::empty()
    } else if contains_seq(lower_of(ls[0]), lower_of(q)) {
        seq![ls[0]] + keep_matching_ci(ls.drop_first(), q)
    } else {
        keep_matching_ci(ls.drop_first(), q)
    }
}

/// Lexicographic order on character sequences, by scalar value: the order
/// strings sort in.
pub open spec fn lex_le(a: Seq<char>, b: Seq<char>) -> bool
    decreases a.len(),
{
    if a.len() == 0 {
        true
    } else if b.len() == 0 {
        false
    } else if (a[0] as u32) < (b[0] as u32) {
        true
    } else if (a[0] as u32) > (b[0] as u32) {
        false
    } else {
        lex_le(a.drop_first(), b.drop_first())
    }
}

/// Any two character sequences compare one way or the other.
pub proof fn lemma_lex_total(a: Seq<char>, b: Seq<char>)
    ensures
        lex_le(a, b) || lex_le(b, a),
    decreases a.len(),
{
    if a.len() > 0 && b.len() > 0 && (a[0] as u32) == (b[0] as u32) {
        lemma_lex_total(a.drop_first(), b.drop_first());
    }
}

/// Lexicographic order is transitive.
pub proof fn lemma_lex_trans(a: Seq<char>, b: Seq<char>, c: Seq<char>)
    requires
        lex_le(a, b),
        lex_le(b, c),
    ensures
        lex_le(a, c),
    decreases a.len(),
{
    if a.len() > 0 {
        assert(b.len() > 0);
        assert(c.len() > 0);
        assert((a[0] as u32) < (b[0] as u32) || ((a[0] as u32) == (b[0] as u32) && lex_le(
            a.drop_first(),
            b.drop_first(),
        )));
        assert((b[0] as u32) < (c[0] as u32) || ((b[0] as u32) == (c[0] as u32) && lex_le(
            b.drop_first(),
            c.drop_first(),
        )));
        if (a[0] as u32) == (c[0] as u32) {
            lemma_lex_trans(a.drop_first(), b.drop_first(), c.drop_first());
        }
    }
}

/// A sequence of character sequences in nondecreasing lexicographic order.
pub open spec fn sorted_lex(vs: Seq<Seq<char>>) -> bool {
    forall|i: int, j: int| 0 <= i < j < vs.len() ==> lex_le(vs[i], vs[j])
}

/// The character sequences of a sequence of strings.
pub open spec fn string_views(v: Seq<String>) -> Seq<Seq<char>> {
    v.map_values(|w: String| w@)
}

/// The character sequences of a sequence of string slices.
pub open spec fn str_views<'a>(v: Seq<&'a str>) -> Seq<Seq<char>> {
    v.map_values(|w: &'a str| w@)
}

/// The characters of `s`, as a vector.
pub fn chars_of(s: &str) -> (r: Vec<char>)
    ensures
        r@ =~= s@,
{
    let n = s.unicode_len();
    let mut r: Vec<char> = Vec::new();
    let mut i: usize = 0;
    while i < n
        invariant
            n == s@.len(),
            i == r@.len(),
            i <= n,
            forall|k: int| 0 <= k < i ==> r@[k] == s@[k],
        decreases n - i,
    {
        r.push(s.get_char(i));
        i = i + 1;
    }
    r
}

/// Relies on `String`'s `FromIterator` over `char`: collecting characters
/// in order yields the string whose characters are exactly those.
#[verifier::external_body]
pub fn string_from_chars(v: &Vec<char>) -> (s: String)
    ensures
        s@ =~= v@,
{
    v.iter().collect()
}

/// The lowercase form of a sequence of characters, as `str::to_lowercase`
/// computes it.
pub uninterp spec fn lower_of(s: Seq<char>) -> Seq<char>;

/// Relies on `str::to_lowercase`: the result is a function of the
/// characters alone, and an empty string stays empty.
#[verifier::external_body]
pub fn lowercase(s: &str) -> (r: String)
    ensures
        r@ == lower_of(s@),
        s@.len() == 0 ==> r@.len() == 0,
{
    s.to_lowercase()
}

/// Whether `needle` occurs in `hay` as a contiguous run of characters.
pub fn str_contains(hay: &str, needle: &str) -> (r: bool)
    ensures
        r == contains_seq(hay@, needle@),
{
    let n = hay.unicode_len();
    let m = needle.unicode_len();
    if m > n {
        return false;
    }
    if m == 0 {
        proof {
            assert(hay@.subrange(0, 0 + needle@.len() as int) =~= needle@);
            assert(contains_seq(hay@, needle@));
        }
        return true;
    }
    let mut i: usize = 0;
    while i <= n - m
        invariant
            n == hay@.len(),
            m == needle@.len(),
            0 < m <= n,
            i <= n - m + 1,
            forall|k: int|
                0 <= k < i ==> #[trigger] hay@.subrange(k, k + needle@.len()) != needle@,
        decreases n - m + 1 - i,
    {
        let mut j: usize = 0;
        let mut hit = true;
        while j < m
            invariant
                n == hay@.len(),
                m == needle@.len(),
                m <= n,
                i + m <= n,
                j <= m,
                hit ==> forall|t: int| 0 <= t < j ==> hay@[i + t] == needle@[t],
                !hit ==> hay@.subrange(i as int, i + needle@.len()) != needle@,
            decreases m - j,
        {
            if hay.get_char(i + j) != needle.get_char(j) {
                proof {
                    assert(hay@.subrange(i as int, i + needle@.len())[j as int] == hay@[i + j]);
                }
                hit = false;
                j = m;
            } else {
                j = j + 1;
            }
        }
        if hit {
            proof {
                assert(hay@.subrange(i as int, i + needle@.len()) =~= needle@);
            }
            return true;
        }
        i = i + 1;
    }
    proof {
        assert forall|k: int| 0 <= k && k + needle@.len() <= hay@.len() implies #[trigger] hay@
            .subrange(k, k + needle@.len()) != needle@ by {
            assert(k < i);
        }
    }
    false
}

/// The whitespace-separated words of `s`, each as an owned string.
pub fn split_words(s: &str) -> (r: Vec<String>)
    ensures
        string_views(r@) =~= words(s@),
{
    let n = s.unicode_len();
    let mut r: Vec<String> = Vec::new();
    let mut i: usize = 0;
    proof {
        assert(s@.skip(0) =~= s@);
        assert(string_views(r@) =~= Seq::<Seq<char>>::empty());
    }
    while i < n
        invariant
            n == s@.len(),
            i <= n,
            words(s@) =~= string_views(r@) + words(s@.skip(i as int)),
        decreases n - i,
    {
        let c = s.get_char(i);
        if is_space(c) {
            proof {
                lemma_words_skip_space(s@.skip(i as int));
                assert(s@.skip(i as int).skip(1) =~= s@.skip(i + 1));
            }
            i = i + 1;
        } else {
            let start = i;
            let mut j = i + 1;
            while j < n && !is_space(s.get_char(j))
                invariant
                    n == s@.len(),
                    start < j <= n,
                    forall|t: int| start <= t < j ==> !is_space_char(s@[t]),
                decreases n - j,
            {
                j = j + 1;
            }
            let word = s.substring_char(start, j).to_owned();
            let ghost views0 = string_views(r@);
            proof {
                let suffix = s@.skip(start as int);
                assert(forall|t: int| 0 <= t < j - start ==> suffix[t] == s@[t + start]);
                if j < n {
                    assert(suffix[j - start] == s@[j as int]);
                }
                lemma_words_first(suffix, j - start);
                assert(suffix.take(j - start) =~= s@.subrange(start as int, j as int));
                assert(suffix.skip(j - start) =~= s@.skip(j as int));
            }
            r.push(word);
            proof {
                assert(string_views(r@) =~= views0.push(word@));
                assert(words(s@) =~= string_views(r@) + words(s@.skip(j as int)));
            }
            i = j;
        }
    }
    proof {
        assert(s@.skip(n as int).len() == 0);
    }
    r
}

/// The lines of `s`, as slices of `s`.
pub fn split_lines<'a>(s: &'a str) -> (r: Vec<&'a str>)
    ensures
        str_views(r@) =~= lines_of(s@),
{
    let n = s.unicode_len();
    let mut r: Vec<&'a str> = Vec::new();
    let mut i: usize = 0;
    proof {
        assert(s@.skip(0) =~= s@);
        assert(str_views(r@) =~= Seq::<Seq<char>>::empty());
    }
    while i < n
        invariant
            n == s@.len(),
            i <= n,
            lines_of(s@) =~= str_views(r@) + lines_of(s@.skip(i as int)),
        decreases n - i,
    {
        let start = i;
        let mut j = i;
        while j < n && s.get_char(j) != '\n'
            invariant
                n == s@.len(),
                start <= j <= n,
                forall|t: int| start <= t < j ==> s@[t] != '\n',
            decreases n - j,
        {
            j = j + 1;
        }
        let ghost suffix = s@.skip(start as int);
        let ghost views0 = str_views(r@);
        proof {
            assert(forall|t: int| 0 <= t < j - start ==> suffix[t] == s@[t + start]);
            if j < n {
                assert(suffix[j - start] == s@[j as int]);
            }
            lemma_line_len_is(suffix, j - start);
        }
        if j == n {
            let line = s.substring_char(start, n);
            proof {
                assert(line@ =~= suffix);
                assert(lines_of(suffix) =~= seq![suffix]);
            }
            r.push(line);
            proof {
                assert(str_views(r@) =~= views0.push(line@));
                assert(s@.skip(n as int).len() == 0);
                assert(lines_of(s@) =~= str_views(r@) + lines_of(s@.skip(n as int)));
            }
            i = n;
        } else {
            let e = if j > start && s.get_char(j - 1) == '\r' {
                j - 1
            } else {
                j
            };
            let line = s.substring_char(start, e);
            proof {
                let k = j - start;
                assert(suffix.take(k) =~= s@.subrange(start as int, j as int));
                if j > start && s@[j - 1] == '\r' {
                    assert(suffix.take(k)[k - 1] == '\r');
                    assert(strip_cr(suffix.take(k)) =~= suffix.take(k).drop_last());
                    assert(line@ =~= strip_cr(suffix.take(k)));
                } else {
                    if k > 0 {
                        assert(suffix.take(k)[k - 1] == s@[j - 1]);
                    }
                    assert(strip_cr(suffix.take(k)) =~= suffix.take(k));
                    assert(line@ =~= strip_cr(suffix.take(k)));
                }
                assert(suffix.skip(k + 1) =~= s@.skip(j + 1));
                assert(lines_of(suffix) =~= seq![strip_cr(suffix.take(k))] + lines_of(
                    s@.skip(j + 1),
                ));
            }
            r.push(line);
            proof {
                assert(str_views(r@) =~= views0.push(line@));
                assert(lines_of(s@) =~= str_views(r@) + lines_of(s@.skip(j + 1)));
            }
            i = j + 1;
        }
    }
    proof {
        assert(s@.skip(n as int).len() == 0);
    }
    r
}

/// Sorts strings into nondecreasing lexicographic order; the result holds
/// exactly the same strings, as a multiset.
pub fn sort_strings(v: Vec<String>) -> (r: Vec<String>)
    ensures
        sorted_lex(string_views(r@)),
        string_views(r@).to_multiset() == string_views(v@).to_multiset(),
{
    broadcast use vstd::seq_lib::group_to_multiset_ensures;
    broadcast use vstd::multiset::group_multiset_axioms;

    let mut work = v;
    let mut out: Vec<String> = Vec::new();
    proof {
        assert(string_views(out@) =~= Seq::<Seq<char>>::empty());
        assert(string_views(out@).to_multiset().add(string_views(work@).to_multiset())
            =~= string_views(work@).to_multiset());
    }
    while work.len() > 0
        invariant
            sorted_lex(string_views(out@)),
            forall|i: int, j: int|
                0 <= i < out@.len() && 0 <= j < work@.len() ==> lex_le(
                    #[trigger] string_views(out@)[i],
                    #[trigger] string_views(work@)[j],
                ),
            string_views(out@).to_multiset().add(string_views(work@).to_multiset())
                == string_views(v@).to_multiset(),
        decreases work@.len(),
    {
        let mut mi: usize = 0;
        let mut k: usize = 1;
        proof {
            lemma_lex_total(string_views(work@)[0], string_views(work@)[0]);
        }
        while k < work.len()
            invariant
                mi < k <= work@.len(),
                forall|t: int|
                    0 <= t < k ==> lex_le(
                        string_views(work@)[mi as int],
                        #[trigger] string_views(work@)[t],
                    ),
            decreases work@.len() - k,
        {
            if str_le(work[k].as_str(), work[mi].as_str()) {
                let ghost old_mi = mi as int;
                mi = k;
                proof {
                    assert forall|t: int|
                        0 <= t < k + 1 implies lex_le(
                        string_views(work@)[mi as int],
                        #[trigger] string_views(work@)[t],
                    ) by {
                        if t < k {
                            lemma_lex_trans(
                                string_views(work@)[mi as int],
                                string_views(work@)[old_mi],
                                string_views(work@)[t],
                            );
                        } else {
                            lemma_lex_total(
                                string_views(work@)[mi as int],
                                string_views(work@)[mi as int],
                            );
                        }
                    }
                }
            } else {
                proof {
                    lemma_lex_total(string_views(work@)[mi as int], string_views(work@)[k as int]);
                }
            }
            k = k + 1;
        }
        let ghost work0 = string_views(work@);
        let ghost out0 = string_views(out@);
        let chosen = work.remove(mi);
        proof {
            assert(string_views(work@) =~= work0.remove(mi as int));
        }
        out.push(chosen);
        proof {
            assert(string_views(out@) =~= out0.push(chosen@));
            assert(chosen@ == work0[mi as int]);
            assert(work0.contains(chosen@));
            vstd::seq_lib::to_multiset_contains(work0, chosen@);
            vstd::seq_lib::to_multiset_build(out0, chosen@);
            vstd::seq_lib::to_multiset_remove(work0, mi as int);
            assert(work0.to_multiset().count(chosen@) > 0);
            assert(string_views(out@).to_multiset() =~= out0.to_multiset().insert(chosen@));
            assert(string_views(work@).to_multiset() =~= work0.to_multiset().remove(chosen@));
            assert(out0.to_multiset().insert(chosen@).add(work0.to_multiset().remove(chosen@))
                =~= out0.to_multiset().add(work0.to_multiset()));
            assert(string_views(out@).to_multiset().add(string_views(work@).to_multiset())
                =~= out0.to_multiset().add(work0.to_multiset()));
            assert forall|i: int, j: int|
                0 <= i < out@.len() && 0 <= j < work@.len() implies lex_le(
                #[trigger] string_views(out@)[i],
                #[trigger] string_views(work@)[j],
            ) by {
                assert(string_views(work@)[j] == work0[if j < mi as int {
                    j
                } else {
                    j + 1
                }]);
                if i < out0.len() {
                    assert(string_views(out@)[i] == out0[i]);
                } else {
                    assert(string_views(out@)[i] == chosen@);
                }
            }
            assert(sorted_lex(string_views(out@)));
        }
    }
    proof {
        assert(string_views(work@).to_multiset() =~= Seq::<Seq<char>>::empty().to_multiset());
        assert(string_views(out@).to_multiset().add(string_views(work@).to_multiset())
            =~= string_views(out@).to_multiset());
    }
    out
}

/// Whether `a` sorts at or before `b` in lexicographic order.
pub fn str_le(a: &str, b: &str) -> (r: bool)
    ensures
        r == lex_le(a@, b@),
{
    let an = a.unicode_len();
    let bn = b.unicode_len();
    let mut i: usize = 0;
    proof {
        assert(a@.skip(0) =~= a@);
        assert(b@.skip(0) =~= b@);
    }
    loop
        invariant
            an == a@.len(),
            bn == b@.len(),
            i <= an,
            i <= bn,
            forall|k: int| 0 <= k < i ==> a@[k] == b@[k],
            lex_le(a@, b@) == lex_le(a@.skip(i as int), b@.skip(i as int)),
        decreases an - i,
    {
        if i == an {
            proof {
                assert(a@.skip(i as int).len() == 0);
            }
            return true;
        }
        if i == bn {
            proof {
                assert(b@.skip(i as int).len() == 0);
                assert(a@.skip(i as int).len() > 0);
            }
            return false;
        }
        let ca = a.get_char(i);
        let cb = b.get_char(i);
        if ca == cb {
            proof {
                assert(a@.skip(i as int)[0] == ca);
                assert(b@.skip(i as int)[0] == cb);
                assert(a@.skip(i as int).drop_first() =~= a@.skip(i + 1));
                assert(b@.skip(i as int).drop_first() =~= b@.skip(i + 1));
            }
            i = i + 1;
        } else if (ca as u32) < (cb as u32) {
            proof {
                assert(a@.skip(i as int)[0] == ca);
                assert(b@.skip(i as int)[0] == cb);
            }
            return true;
        } else {
            proof {
                assert(a@.skip(i as int)[0] == ca);
                assert(b@.skip(i as int)[0] == cb);
                assert((ca as u32) != (cb as u32)) by {
                    if (ca as u32) == (cb as u32) {
                        assert(ca == cb);
                    }
                }
            }
            return false;
        }
    }
}

} // verus!
