//! Character-sequence models and verified text helpers.
//!
//! The wire protocol and the configuration format are both line-based text,
//! so their contracts are stated over a small set of spec functions defined
//! here: whitespace-delimited tokens (`first_token`, `second_token`),
//! first-occurrence search (`idx_of`), substring containment (`contains_seq`),
//! prefix tests (`starts_with_spec`) and slash removal (`strip_slashes`).
//! Whitespace here is the protocol's token separators: space, tab, carriage
//! return and line feed.

use vstd::prelude::*;
use vstd::string::StrSliceExecFns;

verus! {

/// True iff `c` separates tokens on a request line.
pub open spec fn is_ws_char(c: char) -> bool {
    c == ' ' || c == '\t' || c == '\r' || c == '\n'
}

/// `s` without its leading whitespace.
pub open spec fn skip_ws(s: Seq<char>) -> Seq<char>
    decreases s.len(),
{
    if s.len() > 0 && is_ws_char(s[0]) {
        skip_ws(s.drop_first())
    } else {
        s
    }
}

/// The maximal non-whitespace prefix of `s`.
pub open spec fn take_tok(s: Seq<char>) -> Seq<char>
    decreases s.len(),
{
    if s.len() > 0 && !is_ws_char(s[0]) {
        seq![s[0]] + take_tok(s.drop_first())
    } else {
        Seq::empty()
    }
}

/// `s` without its maximal non-whitespace prefix.
pub open spec fn drop_tok(s: Seq<char>) -> Seq<char>
    decreases s.len(),
{
    if s.len() > 0 && !is_ws_char(s[0]) {
        drop_tok(s.drop_first())
    } else {
        s
    }
}

/// The first whitespace-delimited token of `s`; empty when `s` has none.
pub open spec fn first_token(s: Seq<char>) -> Seq<char> {
    take_tok(skip_ws(s))
}

/// What remains of `s` after its first token.
pub open spec fn after_first_token(s: Seq<char>) -> Seq<char> {
    drop_tok(skip_ws(s))
}

/// The second whitespace-delimited token of `s`; empty when `s` has fewer
/// than two tokens.
pub open spec fn second_token(s: Seq<char>) -> Seq<char> {
    first_token(after_first_token(s))
}

/// True iff `s` holds at least two whitespace-delimited tokens.
pub open spec fn has_second_token(s: Seq<char>) -> bool {
    second_token(s).len() > 0
}

/// `s` with every `/` removed.
pub open spec fn strip_slashes(s: Seq<char>) -> Seq<char> {
    s.filter(|c: char| c != '/')
}

/// The index of the first occurrence of `c` in `s`, or `s.len()` when `c`
/// does not occur.
pub open spec fn idx_of(s: Seq<char>, c: char) -> int
    decreases s.len(),
{
    if s.len() == 0 {
        0
    } else if s[0] == c {
        0
    } else {
        1 + idx_of(s.drop_first(), c)
    }
}

/// True iff `needle` occurs in `hay` starting at index `i`.
pub open spec fn match_at(hay: Seq<char>, needle: Seq<char>, i: int) -> bool {
    0 <= i && i + needle.len() <= hay.len() && hay.subrange(i, i + needle.len()) == needle
}

/// True iff `needle` occurs somewhere in `hay`.
pub open spec fn contains_seq(hay: Seq<char>, needle: Seq<char>) -> bool {
    exists|i: int| match_at(hay, needle, i)
}

/// True iff `p` is a prefix of `s`.
pub open spec fn starts_with_spec(s: Seq<char>, p: Seq<char>) -> bool {
    p.len() <= s.len() && s.take(p.len() as int) == p
}

/// Skipping a whitespace prefix does not change where the tokens start.
pub proof fn lemma_skip_ws_prefix(s: Seq<char>, i: int)
    requires
        0 <= i <= s.len(),
        forall|j: int| 0 <= j < i ==> is_ws_char(s[j]),
    ensures
        skip_ws(s) == skip_ws(s.skip(i)),
    decreases i,
{
    if i == 0 {
        assert(s.skip(0) =~= s);
    } else {
        assert(is_ws_char(s[0]));
        assert(s.drop_first() =~= s.skip(1));
        lemma_skip_ws_prefix(s.skip(1), i - 1);
        assert(s.skip(1).skip(i - 1) =~= s.skip(i));
    }
}

/// A non-whitespace prefix is the start of the leading token.
pub proof fn lemma_tok_prefix(s: Seq<char>, i: int)
    requires
        0 <= i <= s.len(),
        forall|j: int| 0 <= j < i ==> !is_ws_char(s[j]),
    ensures
        take_tok(s) == s.take(i) + take_tok(s.skip(i)),
        drop_tok(s) == drop_tok(s.skip(i)),
    decreases i,
{
    if i == 0 {
        assert(s.skip(0) =~= s);
        assert(s.take(0) + take_tok(s) =~= take_tok(s));
    } else {
        assert(!is_ws_char(s[0]));
        assert(s.drop_first() =~= s.skip(1));
        lemma_tok_prefix(s.skip(1), i - 1);
        assert(s.skip(1).skip(i - 1) =~= s.skip(i));
        assert(s.skip(1).take(i - 1) =~= s.take(i).skip(1));
        assert(seq![s[0]] + (s.skip(1).take(i - 1) + take_tok(s.skip(i))) =~= s.take(i)
            + take_tok(s.skip(i)));
    }
}

/// An all-whitespace sequence in front is skipped whole.
pub proof fn lemma_skip_ws_concat(a: Seq<char>, b: Seq<char>)
    requires
        forall|j: int| 0 <= j < a.len() ==> is_ws_char(a[j]),
    ensures
        skip_ws(a + b) == skip_ws(b),
{
    lemma_skip_ws_prefix(a + b, a.len() as int);
    assert((a + b).skip(a.len() as int) =~= b);
}

/// An all-non-whitespace sequence in front is the start of the leading token.
pub proof fn lemma_tok_concat(a: Seq<char>, b: Seq<char>)
    requires
        forall|j: int| 0 <= j < a.len() ==> !is_ws_char(a[j]),
    ensures
        take_tok(a + b) == a + take_tok(b),
        drop_tok(a + b) == drop_tok(b),
{
    lemma_tok_prefix(a + b, a.len() as int);
    assert((a + b).skip(a.len() as int) =~= b);
    assert((a + b).take(a.len() as int) =~= a);
}

/// Properties pinning `idx_of` down as the first occurrence.
pub proof fn lemma_idx_of_props(s: Seq<char>, c: char)
    ensures
        0 <= idx_of(s, c) <= s.len(),
        idx_of(s, c) < s.len() ==> s[idx_of(s, c)] == c,
        forall|j: int| 0 <= j < idx_of(s, c) ==> s[j] != c,
        idx_of(s, c) == s.len() ==> !s.contains(c),
    decreases s.len(),
{
    if s.len() == 0 {
    } else if s[0] == c {
    } else {
        lemma_idx_of_props(s.drop_first(), c);
        assert(forall|j: int| 1 <= j < s.len() ==> s[j] == s.drop_first()[j - 1]);
        if idx_of(s, c) == s.len() {
            assert(forall|j: int| 0 <= j < s.len() ==> s[j] != c);
        }
    }
}

/// Searching a concatenation whose front lacks `c` searches the back.
pub proof fn lemma_idx_of_concat(a: Seq<char>, b: Seq<char>, c: char)
    requires
        forall|j: int| 0 <= j < a.len() ==> a[j] != c,
    ensures
        idx_of(a + b, c) == a.len() + idx_of(b, c),
    decreases a.len(),
{
    if a.len() == 0 {
        assert(a + b =~= b);
    } else {
        assert((a + b)[0] == a[0]);
        assert((a + b).drop_first() =~= a.drop_first() + b);
        lemma_idx_of_concat(a.drop_first(), b, c);
    }
}

/// Removing slashes from a slash-free sequence changes nothing.
pub proof fn lemma_strip_slashes_id(s: Seq<char>)
    requires
        forall|i: int| 0 <= i < s.len() ==> s[i] != '/',
    ensures
        strip_slashes(s) == s,
    decreases s.len(),
{
    reveal(Seq::filter);
    if s.len() == 0 {
        assert(strip_slashes(s) =~= s);
    } else {
        lemma_strip_slashes_id(s.drop_last());
        assert(strip_slashes(s) =~= s);
    }
}

/// `strip_slashes` distributes over concatenation.
pub proof fn lemma_strip_slashes_concat(a: Seq<char>, b: Seq<char>)
    ensures
        strip_slashes(a + b) == strip_slashes(a) + strip_slashes(b),
{
    broadcast use vstd::seq_lib::group_filter_ensures;

    assert(strip_slashes(a + b) == strip_slashes(a) + strip_slashes(b)) by {
        Seq::filter_distributes_over_add(a, b, |c: char| c != '/');
    }
}

/// Removing slashes from a single character.
pub proof fn lemma_strip_slashes_one(c: char)
    ensures
        strip_slashes(seq![c]) == if c != '/' {
            seq![c]
        } else {
            Seq::<char>::empty()
        },
{
    reveal_with_fuel(Seq::filter, 2);
    let s = seq![c];
    assert(s.drop_last() =~= Seq::<char>::empty());
    assert(strip_slashes(Seq::<char>::empty()) =~= Seq::<char>::empty());
    if c != '/' {
        assert(strip_slashes(s) =~= seq![c]);
    } else {
        assert(strip_slashes(s) =~= Seq::<char>::empty());
    }
}

/// True iff `c` separates tokens on a request line.
pub fn char_is_ws(c: char) -> (b: bool)
    ensures
        b == is_ws_char(c),
{
    c == ' ' || c == '\t' || c == '\r' || c == '\n'
}

/// The index of the first occurrence of `c` in `s`, or the length of `s`
/// when `c` does not occur.
pub fn find_char(s: &str, c: char) -> (i: usize)
    ensures
        i as int == idx_of(s@, c),
{
    let n = s.unicode_len();
    let mut i: usize = 0;
    while i < n
        invariant
            i <= n,
            n == s@.len(),
            forall|j: int| 0 <= j < i ==> s@[j] != c,
        decreases n - i,
    {
        if s.get_char(i) == c {
            proof {
                lemma_idx_of_props(s@, c);
                let k = idx_of(s@, c);
                if k < i as int {
                    assert(s@[k] != c);
                }
                if k > i as int {
                    assert(s@[i as int] != c);
                }
            }
            return i;
        }
        i += 1;
    }
    proof {
        lemma_idx_of_props(s@, c);
        let k = idx_of(s@, c);
        if k < s@.len() {
            assert(s@[k] != c);
        }
    }
    n
}

/// True iff `needle` occurs as a contiguous substring of `hay`.
pub fn str_contains(hay: &str, needle: &str) -> (found: bool)
    ensures
        found == contains_seq(hay@, needle@),
{
    let h = hay.unicode_len();
    let n = needle.unicode_len();
    if n > h {
        proof {
            assert(forall|i: int| !match_at(hay@, needle@, i));
        }
        return false;
    }
    if n == 0 {
        proof {
            assert(hay@.subrange(0, 0) =~= needle@);
            assert(match_at(hay@, needle@, 0));
        }
        return true;
    }
    let mut i: usize = 0;
    while i <= h - n
        invariant
            0 < n <= h,
            h == hay@.len(),
            n == needle@.len(),
            i <= h - n + 1,
            forall|k: int| 0 <= k < i ==> !match_at(hay@, needle@, k),
        decreases h - n - i + 1,
    {
        let mut j: usize = 0;
        let mut mismatch = false;
        while j < n
            invariant
                n <= h,
                h == hay@.len(),
                n == needle@.len(),
                i + n <= h,
                j <= n,
                !mismatch ==> forall|t: int| 0 <= t < j ==> hay@[i + t] == needle@[t],
                mismatch ==> !match_at(hay@, needle@, i as int),
            decreases n - j,
        {
            if hay.get_char(i + j) != needle.get_char(j) {
                proof {
                    if match_at(hay@, needle@, i as int) {
                        assert(hay@.subrange(i as int, i + n)[j as int] == hay@[i + j]);
                    }
                }
                mismatch = true;
                j = n;
            } else {
                j += 1;
            }
        }
        if !mismatch {
            proof {
                assert(hay@.subrange(i as int, i + n) =~= needle@);
                assert(match_at(hay@, needle@, i as int));
            }
            return true;
        }
        i += 1;
    }
    proof {
        assert(forall|k: int| 0 <= k < i ==> !match_at(hay@, needle@, k));
        assert(forall|k: int| !match_at(hay@, needle@, k));
    }
    false
}

/// True iff `p` is a prefix of `s`.
pub fn str_starts_with(s: &str, p: &str) -> (b: bool)
    ensures
        b == starts_with_spec(s@, p@),
{
    let n = s.unicode_len();
    let m = p.unicode_len();
    if m > n {
        return false;
    }
    let mut j: usize = 0;
    while j < m
        invariant
            m <= n,
            n == s@.len(),
            m == p@.len(),
            j <= m,
            forall|t: int| 0 <= t < j ==> s@[t] == p@[t],
        decreases m - j,
    {
        if s.get_char(j) != p.get_char(j) {
            proof {
                if starts_with_spec(s@, p@) {
                    assert(s@.take(m as int)[j as int] == s@[j as int]);
                }
            }
            return false;
        }
        j += 1;
    }
    proof {
        assert(s@.take(m as int) =~= p@);
    }
    true
}

} // verus!
