//! Character-level scanning over `&str`, stated over the string's `Seq<char>` view.

use vstd::prelude::*;
use vstd::std_specs::iter::IteratorSpec;
use vstd::string::StringSliceAdditionalSpecFns;
use vstd::utf8::encode_utf8_decode_utf8;

verus! {

/// The characters that end a word of the request line.
pub open spec fn is_delim(c: char) -> bool {
    c == ' ' || c == '\r'
}

/// `i` is the position of the first delimiter of `s`.
pub open spec fn is_first_delim(s: Seq<char>, i: int) -> bool {
    &&& 0 <= i < s.len()
    &&& is_delim(s[i])
    &&& forall|j: int| 0 <= j < i ==> !is_delim(#[trigger] s[j])
}

/// The word before the first delimiter and the text after it, or `None` when `s`
/// holds no delimiter.
pub open spec fn next_word(s: Seq<char>) -> Option<(Seq<char>, Seq<char>)> {
    if exists|i: int| is_first_delim(s, i) {
        let i = choose|i: int| is_first_delim(s, i);
        Some((s.take(i), s.skip(i + 1)))
    } else {
        None
    }
}

/// `i` is the position of the first occurrence of `c` in `s`.
pub open spec fn is_first_of(s: Seq<char>, c: char, i: int) -> bool {
    &&& 0 <= i < s.len()
    &&& s[i] == c
    &&& forall|j: int| 0 <= j < i ==> #[trigger] s[j] != c
}

/// The text before the first `c` and the text after it, or `None` when `c` does
/// not occur in `s`.
pub open spec fn split_once(s: Seq<char>, c: char) -> Option<(Seq<char>, Seq<char>)> {
    if exists|i: int| is_first_of(s, c, i) {
        let i = choose|i: int| is_first_of(s, c, i);
        Some((s.take(i), s.skip(i + 1)))
    } else {
        None
    }
}

/// There is at most one first delimiter.
pub proof fn lemma_first_delim_unique(s: Seq<char>, i: int, k: int)
    requires
        is_first_delim(s, i),
        is_first_delim(s, k),
    ensures
        i == k,
{
    if i < k {
        assert(!is_delim(s[i]));
    } else if k < i {
        assert(!is_delim(s[k]));
    }
}

/// There is at most one first occurrence of a character.
pub proof fn lemma_first_of_unique(s: Seq<char>, c: char, i: int, k: int)
    requires
        is_first_of(s, c, i),
        is_first_of(s, c, k),
    ensures
        i == k,
{
    if i < k {
        assert(s[i] != c);
    } else if k < i {
        assert(s[k] != c);
    }
}

/// How many delimiters `s` holds.
pub open spec fn delim_count(s: Seq<char>) -> nat {
    s.filter(|c: char| is_delim(c)).len()
}

/// A word free of delimiters, then a delimiter: the word is the next word.
pub proof fn lemma_next_word_concat(w: Seq<char>, d: char, r: Seq<char>)
    requires
        forall|i: int| 0 <= i < w.len() ==> !is_delim(#[trigger] w[i]),
        is_delim(d),
    ensures
        next_word(w + seq![d] + r) == Some((w, r)),
{
    let s = w + seq![d] + r;
    assert(s[w.len() as int] == d);
    assert(forall|j: int| 0 <= j < w.len() ==> s[j] == w[j]);
    assert(is_first_delim(s, w.len() as int));
    let k = choose|k: int| is_first_delim(s, k);
    lemma_first_delim_unique(s, w.len() as int, k);
    assert(s.take(w.len() as int) =~= w);
    assert(s.skip(w.len() as int + 1) =~= r);
}

/// Text free of `c`, then `c`: `split_once` splits there.
pub proof fn lemma_split_once_concat(a: Seq<char>, c: char, b: Seq<char>)
    requires
        forall|i: int| 0 <= i < a.len() ==> #[trigger] a[i] != c,
    ensures
        split_once(a + seq![c] + b, c) == Some((a, b)),
{
    let s = a + seq![c] + b;
    assert(s[a.len() as int] == c);
    assert(forall|j: int| 0 <= j < a.len() ==> s[j] == a[j]);
    assert(is_first_of(s, c, a.len() as int));
    let k = choose|k: int| is_first_of(s, c, k);
    lemma_first_of_unique(s, c, a.len() as int, k);
    assert(s.take(a.len() as int) =~= a);
    assert(s.skip(a.len() as int + 1) =~= b);
}

/// Text free of `c` is not split.
pub proof fn lemma_split_once_none(s: Seq<char>, c: char)
    requires
        forall|i: int| 0 <= i < s.len() ==> #[trigger] s[i] != c,
    ensures
        split_once(s, c) is None,
{
}

/// Taking a word off consumes exactly one delimiter.
pub proof fn lemma_next_word_count(s: Seq<char>)
    ensures
        next_word(s) matches Some(p) ==> delim_count(s) == delim_count(p.1) + 1,
{
    if exists|i: int| is_first_delim(s, i) {
        let i = choose|i: int| is_first_delim(s, i);
        let w = s.take(i);
        let r = s.skip(i + 1);
        let pred = |c: char| is_delim(c);
        assert(s =~= w + seq![s[i]] + r);
        Seq::filter_distributes_over_add(w + seq![s[i]], r, pred);
        Seq::filter_distributes_over_add(w, seq![s[i]], pred);
        assert(w.all(|x: char| !pred(x)));
        w.lemma_all_neg_filter_empty(pred);
        Seq::<char>::empty().lemma_filter_len_push(pred, s[i]);
        assert(seq![s[i]] =~= Seq::<char>::empty().push(s[i]));
        reveal(Seq::filter);
        assert(Seq::<char>::empty().filter(pred) =~= Seq::<char>::empty());
    }
}

/// Position of the first delimiter of `s`, counted in characters.
pub fn find_delim(s: &str) -> (r: Option<usize>)
    ensures
        match r {
            Some(i) => is_first_delim(s@, i as int),
            None => forall|j: int| 0 <= j < s@.len() ==> !is_delim(#[trigger] s@[j]),
        },
{
    let n = s.unicode_len();
    let mut it = s.chars();
    let mut i: usize = 0;
    loop
        invariant
            n == s@.len(),
            i <= n,
            it.remaining() == s@.skip(i as int),
            forall|j: int| 0 <= j < i ==> !is_delim(#[trigger] s@[j]),
        decreases n - i,
    {
        let next = it.next();
        match next {
            Some(c) => {
                assert(s@.skip(i as int)[0] == s@[i as int]);
                if c == ' ' || c == '\r' {
                    return Some(i);
                }
                proof {
                    assert(s@.skip(i as int).drop_first() =~= s@.skip(i as int + 1));
                }
                i = i + 1;
            },
            None => {
                return None;
            },
        }
    }
}

/// Whether two strings hold the same characters, compared byte by byte.
pub fn text_eq(a: &str, b: &str) -> (r: bool)
    ensures
        r == (a@ == b@),
{
    let x = a.as_bytes();
    let y = b.as_bytes();
    if x.len() != y.len() {
        return false;
    }
    let mut i: usize = 0;
    while i < x.len()
        invariant
            x@ == a.spec_bytes(),
            y@ == b.spec_bytes(),
            x@.len() == y@.len(),
            i <= x@.len(),
            forall|j: int| 0 <= j < i ==> x@[j] == y@[j],
        decreases x@.len() - i,
    {
        if x[i] != y[i] {
            return false;
        }
        i = i + 1;
    }
    proof {
        assert(x@ =~= y@);
        encode_utf8_decode_utf8(a@);
        encode_utf8_decode_utf8(b@);
    }
    true
}

/// Position of the first `c` in `s`, counted in characters.
pub fn find_char(s: &str, c: char) -> (r: Option<usize>)
    ensures
        match r {
            Some(i) => is_first_of(s@, c, i as int),
            None => forall|j: int| 0 <= j < s@.len() ==> #[trigger] s@[j] != c,
        },
{
    let n = s.unicode_len();
    let mut it = s.chars();
    let mut i: usize = 0;
    loop
        invariant
            n == s@.len(),
            i <= n,
            it.remaining() == s@.skip(i as int),
            forall|j: int| 0 <= j < i ==> #[trigger] s@[j] != c,
        decreases n - i,
    {
        let next = it.next();
        match next {
            Some(x) => {
                assert(s@.skip(i as int)[0] == s@[i as int]);
                if x == c {
                    return Some(i);
                }
                proof {
                    assert(s@.skip(i as int).drop_first() =~= s@.skip(i as int + 1));
                }
                i = i + 1;
            },
            None => {
                return None;
            },
        }
    }
}

/// Splits off the first word of `s`: the text before the first space or carriage
/// return, and the text after that delimiter.
pub fn get_next_word(s: &str) -> (r: Option<(&str, &str)>)
    ensures
        r matches Some(p) ==> next_word(s@) == Some((p.0@, p.1@)),
        r is None ==> next_word(s@) is None,
{
    match find_delim(s) {
        Some(i) => {
            let n = s.unicode_len();
            let word = s.substring_char(0, i);
            let rest = s.substring_char(i + 1, n);
            proof {
                let k = choose|k: int| is_first_delim(s@, k);
                lemma_first_delim_unique(s@, i as int, k);
                assert(word@ =~= s@.take(i as int));
                assert(rest@ =~= s@.skip(i as int + 1));
            }
            Some((word, rest))
        },
        None => {
            assert(!exists|k: int| is_first_delim(s@, k));
            None
        },
    }
}

/// Splits `s` at its first `c`: the text before it and the text after it.
pub fn split_at_char(s: &str, c: char) -> (r: Option<(&str, &str)>)
    ensures
        r matches Some(p) ==> split_once(s@, c) == Some((p.0@, p.1@)) && p.1@.len() < s@.len(),
        r is None ==> split_once(s@, c) is None,
{
    match find_char(s, c) {
        Some(i) => {
            let n = s.unicode_len();
            let before = s.substring_char(0, i);
            let after = s.substring_char(i + 1, n);
            proof {
                let k = choose|k: int| is_first_of(s@, c, k);
                lemma_first_of_unique(s@, c, i as int, k);
                assert(before@ =~= s@.take(i as int));
                assert(after@ =~= s@.skip(i as int + 1));
            }
            Some((before, after))
        },
        None => {
            assert(!exists|k: int| is_first_of(s@, c, k));
            None
        },
    }
}

} // verus!
