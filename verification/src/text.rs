use vstd::prelude::*;
use vstd::string::*;

verus! {

/// Whether a character has the Unicode `White_Space` property.
pub open spec fn is_space(c: char) -> bool {
    let n = c as u32;
    ||| 0x09 <= n <= 0x0D
    ||| n == 0x20
    ||| n == 0x85
    ||| n == 0xA0
    ||| n == 0x1680
    ||| 0x2000 <= n <= 0x200A
    ||| n == 0x2028
    ||| n == 0x2029
    ||| n == 0x202F
    ||| n == 0x205F
    ||| n == 0x3000
}

/// Tests a character for the Unicode `White_Space` property.
pub fn is_whitespace(c: char) -> (r: bool)
    ensures
        r == is_space(c),
{
    let n: u32 = c as u32;
    (0x09 <= n && n <= 0x0D) || n == 0x20 || n == 0x85 || n == 0xA0 || n == 0x1680 || (0x2000 <= n
        && n <= 0x200A) || n == 0x2028 || n == 0x2029 || n == 0x202F || n == 0x205F || n
        == 0x3000
}

/// The end of the run of non-space characters that starts at `i`.
pub open spec fn word_end(s: Seq<char>, i: int) -> int
    decreases s.len() - i,
{
    if i < 0 || i >= s.len() || is_space(s[i]) {
        i
    } else {
        word_end(s, i + 1)
    }
}

/// The maximal runs of non-space characters of `s` at or after `i`, in order.
pub open spec fn words_from(s: Seq<char>, i: int) -> Seq<Seq<char>>
    decreases s.len() - i,
{
    if i < 0 || i >= s.len() {
        Seq::empty()
    } else if is_space(s[i]) {
        words_from(s, i + 1)
    } else {
        let e = word_end(s, i);
        if i < e <= s.len() {
            words_from(s, e).insert(0, s.subrange(i, e))
        } else {
            Seq::empty()
        }
    }
}

/// A run that starts on a non-space character ends after it, within the text.
pub proof fn lemma_word_end_bounds(s: Seq<char>, i: int)
    requires
        0 <= i < s.len(),
        !is_space(s[i]),
    ensures
        i < word_end(s, i) <= s.len(),
        forall|k: int| i <= k < word_end(s, i) ==> !is_space(#[trigger] s[k]),
        word_end(s, i) < s.len() ==> is_space(s[word_end(s, i)]),
    decreases s.len() - i,
{
    assert(word_end(s, i) == word_end(s, i + 1));
    if i + 1 < s.len() && !is_space(s[i + 1]) {
        lemma_word_end_bounds(s, i + 1);
    } else {
        assert(word_end(s, i + 1) == i + 1);
    }
}

/// The words of a text: its maximal runs of non-space characters.
pub open spec fn words(s: Seq<char>) -> Seq<Seq<char>> {
    words_from(s, 0)
}

/// The character sequences of a list of strings.
pub open spec fn views(v: Seq<String>) -> Seq<Seq<char>> {
    v.map_values(|s: String| s@)
}

/// Splits a text on whitespace.
pub fn split_words(text: &str) -> (out: Vec<String>)
    ensures
        views(out@) == words(text@),
{
    let n: usize = text.unicode_len();
    let mut out: Vec<String> = Vec::new();
    let mut i: usize = 0;
    assert(views(out@) =~= Seq::<Seq<char>>::empty());
    while i < n
        invariant
            i <= n,
            n == text@.len(),
            views(out@) + words_from(text@, i as int) =~= words(text@),
        decreases n - i,
    {
        if is_whitespace(text.get_char(i)) {
            i += 1;
        } else {
            let start: usize = i;
            let mut e: usize = i + 1;
            while e < n && !is_whitespace(text.get_char(e))
                invariant
                    start < e <= n,
                    n == text@.len(),
                    !is_space(text@[start as int]),
                    word_end(text@, start as int) == word_end(text@, e as int),
                decreases n - e,
            {
                e += 1;
            }
            let word = String::from_str(text.substring_char(start, e));
            proof {
                assert(word_end(text@, e as int) == e);
                assert(views(out@.push(word)) =~= views(out@).push(word@));
                lemma_word_end_bounds(text@, start as int);
                assert(views(out@).push(word@) + words_from(text@, e as int) =~= views(out@)
                    + words_from(text@, start as int));
            }
            out.push(word);
            i = e;
        }
    }
    assert(words_from(text@, n as int) =~= Seq::<Seq<char>>::empty());
    out
}

/// A text without a non-space character has no words.
pub proof fn lemma_blank_has_no_words(s: Seq<char>, i: int)
    requires
        forall|k: int| 0 <= k < s.len() ==> is_space(#[trigger] s[k]),
    ensures
        words_from(s, i).len() == 0,
    decreases s.len() - i,
{
    if 0 <= i < s.len() {
        lemma_blank_has_no_words(s, i + 1);
    }
}

/// Every word is a non-empty run of non-space characters.
pub proof fn lemma_words_are_solid(s: Seq<char>, i: int)
    ensures
        forall|k: int|
            0 <= k < words_from(s, i).len() ==> (#[trigger] words_from(s, i)[k]).len() > 0,
        forall|k: int, j: int|
            0 <= k < words_from(s, i).len() && 0 <= j < words_from(s, i)[k].len() ==> !is_space(
                #[trigger] words_from(s, i)[k][j],
            ),
    decreases s.len() - i,
{
    let ws = words_from(s, i);
    if 0 <= i < s.len() {
        if is_space(s[i]) {
            lemma_words_are_solid(s, i + 1);
            assert(ws == words_from(s, i + 1));
        } else {
            let e = word_end(s, i);
            lemma_word_end_bounds(s, i);
            lemma_words_are_solid(s, e);
            let rest = words_from(s, e);
            let w = s.subrange(i, e);
            assert(ws == rest.insert(0, w));
            assert forall|k: int| 0 <= k < ws.len() implies (#[trigger] ws[k]).len() > 0 by {
                if k > 0 {
                    assert(ws[k] == rest[k - 1]);
                }
            }
            assert forall|k: int, j: int|
                0 <= k < ws.len() && 0 <= j < ws[k].len() implies !is_space(#[trigger] ws[k][j]) by {
                if k == 0 {
                    assert(w[j] == s[i + j]);
                } else {
                    assert(ws[k] == rest[k - 1]);
                }
            }
        }
    } else {
        assert(ws.len() == 0);
    }
}

/// The lowercase form of a text, as the Unicode case mapping of the standard
/// library gives it.
pub uninterp spec fn lowercase_of(s: Seq<char>) -> Seq<char>;

/// Calls `str::to_lowercase`. The contract names its result: the lowercase
/// form depends on the text alone.
#[verifier::external_body]
pub(crate) fn lowercase(s: &str) -> (r: String)
    ensures
        r@ == lowercase_of(s@),
{
    s.to_lowercase()
}

/// The keywords of a query: its words, each in lowercase.
pub open spec fn keywords_of(query: Seq<char>) -> Seq<Seq<char>> {
    words(query).map_values(|w: Seq<char>| lowercase_of(w))
}

/// Tokenizes a query into lowercase keywords.
///
/// A query without a non-space character has no keywords.
pub fn keywords(query: &str) -> (out: Vec<String>)
    ensures
        views(out@) == keywords_of(query@),
        (forall|k: int| 0 <= k < query@.len() ==> is_space(#[trigger] query@[k])) ==> out@.len()
            == 0,
{
    let parts = split_words(query);
    let mut out: Vec<String> = Vec::new();
    let mut k: usize = 0;
    while k < parts.len()
        invariant
            k <= parts.len(),
            views(parts@) == words(query@),
            out@.len() == k,
            forall|j: int| 0 <= j < k ==> (#[trigger] out@[j])@ == lowercase_of(parts@[j]@),
        decreases parts.len() - k,
    {
        let low = lowercase(parts[k].as_str());
        out.push(low);
        k += 1;
    }
    proof {
        assert(views(out@) =~= keywords_of(query@)) by {
            assert forall|j: int| 0 <= j < out@.len() implies views(out@)[j] == keywords_of(
                query@,
            )[j] by {
                assert(views(parts@)[j] == parts@[j]@);
            }
        }
        if forall|k: int| 0 <= k < query@.len() ==> is_space(#[trigger] query@[k]) {
            lemma_blank_has_no_words(query@, 0);
        }
    }
    out
}

/// The pattern that matches every text holding `keyword`: the keyword between
/// two percent signs.
pub fn like_pattern(keyword: &str) -> (r: String)
    ensures
        r@ == "%"@ + keyword@ + "%"@,
{
    let mut r = String::from_str("%");
    r.append(keyword);
    r.append("%");
    r
}

/// Whether `needle` stands in `hay` from position `i` on.
pub open spec fn occurs_at(hay: Seq<char>, needle: Seq<char>, i: int) -> bool {
    &&& 0 <= i
    &&& i + needle.len() <= hay.len()
    &&& hay.subrange(i, i + needle.len()) == needle
}

/// Whether `needle` is a contiguous part of `hay`.
pub open spec fn is_substring(hay: Seq<char>, needle: Seq<char>) -> bool {
    exists|i: int| occurs_at(hay, needle, i)
}

/// The characters of a text.
pub fn chars_of(s: &str) -> (v: Vec<char>)
    ensures
        v@ == s@,
{
    let n: usize = s.unicode_len();
    let mut v: Vec<char> = Vec::new();
    let mut i: usize = 0;
    while i < n
        invariant
            i <= n,
            n == s@.len(),
            v@ == s@.subrange(0, i as int),
        decreases n - i,
    {
        v.push(s.get_char(i));
        assert(v@ =~= s@.subrange(0, i + 1));
        i += 1;
    }
    assert(v@ =~= s@);
    v
}

/// Searches `hay` for `needle`.
pub fn contains_chars(hay: &Vec<char>, needle: &Vec<char>) -> (r: bool)
    ensures
        r == is_substring(hay@, needle@),
{
    let h: usize = hay.len();
    let n: usize = needle.len();
    if n > h {
        return false;
    }
    let last: usize = h - n;
    let mut i: usize = 0;
    while i <= last
        invariant
            i <= last + 1,
            last == h - n,
            h == hay@.len(),
            n == needle@.len(),
            forall|k: int| 0 <= k < i ==> !occurs_at(hay@, needle@, k),
        decreases last + 1 - i,
    {
        let mut j: usize = 0;
        while j < n && hay[i + j] == needle[j]
            invariant
                j <= n,
                i <= last,
                last == h - n,
                h == hay@.len(),
                n == needle@.len(),
                forall|k: int| 0 <= k < j ==> hay@[i + k] == needle@[k],
            decreases n - j,
        {
            j += 1;
        }
        if j == n {
            assert(hay@.subrange(i as int, i + n) =~= needle@);
            assert(occurs_at(hay@, needle@, i as int));
            return true;
        }
        assert(!occurs_at(hay@, needle@, i as int)) by {
            if occurs_at(hay@, needle@, i as int) {
                assert(hay@.subrange(i as int, i + n)[j as int] == needle@[j as int]);
            }
        }
        i += 1;
    }
    false
}

/// Whether `text`, in lowercase, holds `keyword`.
pub fn holds_keyword(text: &str, keyword: &Vec<char>) -> (r: bool)
    ensures
        r == is_substring(lowercase_of(text@), keyword@),
{
    let low = lowercase(text);
    let hay = chars_of(low.as_str());
    contains_chars(&hay, keyword)
}

} // verus!
