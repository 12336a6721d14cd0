//! Character-level string helpers shared by the resolution and templating
//! engine: equality, trimming, character search, dotted-path splitting, and
//! path-leaf extraction.

use vstd::prelude::*;
use vstd::string::*;

verus! {

/// The views of a sequence of strings.
pub open spec fn seq_views(v: Seq<String>) -> Seq<Seq<char>> {
    v.map_values(|s: String| s@)
}

/// Whitespace recognized when queries and app names are trimmed: the ASCII
/// blank characters.
pub open spec fn is_space(c: char) -> bool {
    c == ' ' || c == '\t' || c == '\n' || c == '\r'
}

/// The blank characters, as a predicate for trimming.
pub open spec fn space_pred() -> spec_fn(char) -> bool {
    |c: char| is_space(c)
}

/// The `/` character, as a predicate for trimming.
pub open spec fn slash_pred() -> spec_fn(char) -> bool {
    |c: char| c == '/'
}

/// Index of the first occurrence of `c` in `s` at or after position `i`.
pub open spec fn find_char_from(s: Seq<char>, c: char, i: int) -> Option<int>
    decreases s.len() - i,
{
    if i < 0 || i >= s.len() {
        None
    } else if s[i] == c {
        Some(i)
    } else {
        find_char_from(s, c, i + 1)
    }
}

/// What `find_char_from` returns: the first position of `c` at or after `i`,
/// or nothing when `c` does not occur there.
pub proof fn lemma_find_char_from(s: Seq<char>, c: char, i: int)
    requires
        0 <= i <= s.len(),
    ensures
        match find_char_from(s, c, i) {
            Some(j) => i <= j < s.len() && s[j] == c && (forall|k: int| i <= k < j ==> s[k] != c),
            None => forall|k: int| i <= k < s.len() ==> s[k] != c,
        },
    decreases s.len() - i,
{
    if i < s.len() && s[i] != c {
        lemma_find_char_from(s, c, i + 1);
    }
}

/// `s` with its leading characters satisfying `p` removed.
pub open spec fn trim_start_spec(s: Seq<char>, p: spec_fn(char) -> bool) -> Seq<char>
    decreases s.len(),
{
    if s.len() > 0 && p(s[0]) {
        trim_start_spec(s.drop_first(), p)
    } else {
        s
    }
}

/// `s` with its trailing characters satisfying `p` removed.
pub open spec fn trim_end_spec(s: Seq<char>, p: spec_fn(char) -> bool) -> Seq<char>
    decreases s.len(),
{
    if s.len() > 0 && p(s.last()) {
        trim_end_spec(s.drop_last(), p)
    } else {
        s
    }
}

/// `s` with the characters satisfying `p` removed from both ends.
pub open spec fn trim_spec(s: Seq<char>, p: spec_fn(char) -> bool) -> Seq<char> {
    trim_end_spec(trim_start_spec(s, p), p)
}

/// Removing a trimmed prefix is taking the suffix from the first index that
/// does not satisfy `p`.
pub proof fn lemma_trim_start_skip(s: Seq<char>, p: spec_fn(char) -> bool, i: int)
    requires
        0 <= i <= s.len(),
        forall|k: int| 0 <= k < i ==> p(s[k]),
        i == s.len() || !p(s[i]),
    ensures
        trim_start_spec(s, p) == s.skip(i),
    decreases i,
{
    if i == 0 {
        assert(s.skip(0) =~= s);
    } else {
        let t = s.drop_first();
        assert(forall|k: int| 0 <= k < i - 1 ==> p(t[k]));
        lemma_trim_start_skip(t, p, i - 1);
        assert(t.skip(i - 1) =~= s.skip(i));
    }
}

/// Removing a trimmed suffix is keeping the first `n` characters, where
/// `s[n - 1]` is the last character that does not satisfy `p`.
pub proof fn lemma_trim_end_take(s: Seq<char>, p: spec_fn(char) -> bool, n: int)
    requires
        0 <= n <= s.len(),
        forall|k: int| n <= k < s.len() ==> p(s[k]),
        n == 0 || !p(s[n - 1]),
    ensures
        trim_end_spec(s, p) == s.take(n),
    decreases s.len() - n,
{
    if n == s.len() {
        assert(s.take(n) =~= s);
    } else {
        let t = s.drop_last();
        lemma_trim_end_take(t, p, n);
        assert(t.take(n) =~= s.take(n));
    }
}

/// The part of a slash-separated name after its final `/`; the whole name
/// when it has no `/`.
pub open spec fn leaf_spec(s: Seq<char>) -> Seq<char>
    decreases s.len(),
{
    if s.len() == 0 {
        s
    } else if s.last() == '/' {
        Seq::empty()
    } else {
        leaf_spec(s.drop_last()).push(s.last())
    }
}

/// When `k` is the position of the final `/`, the leaf is the suffix after it.
pub proof fn lemma_leaf_after_slash(s: Seq<char>, k: int)
    requires
        0 <= k < s.len(),
        s[k] == '/',
        forall|m: int| k < m < s.len() ==> s[m] != '/',
    ensures
        leaf_spec(s) == s.skip(k + 1),
    decreases s.len(),
{
    if k == s.len() - 1 {
        assert(s.skip(k + 1) =~= Seq::<char>::empty());
    } else {
        let t = s.drop_last();
        lemma_leaf_after_slash(t, k);
        assert(t.skip(k + 1).push(s.last()) =~= s.skip(k + 1));
    }
}

/// A name without `/` is its own leaf.
pub proof fn lemma_leaf_no_slash(s: Seq<char>)
    requires
        forall|m: int| 0 <= m < s.len() ==> s[m] != '/',
    ensures
        leaf_spec(s) == s,
    decreases s.len(),
{
    if s.len() > 0 {
        let t = s.drop_last();
        lemma_leaf_no_slash(t);
        assert(t.push(s.last()) =~= s);
    }
}

/// A dotted key split into its segments: the pieces between the `.`
/// characters, in order, empty pieces kept.
pub open spec fn split_dots(s: Seq<char>) -> Seq<Seq<char>>
    decreases s.len(),
{
    let found = find_char_from(s, '.', 0);
    if found is Some && 0 <= found->Some_0 < s.len() {
        let i = found->Some_0;
        seq![s.take(i)] + split_dots(s.skip(i + 1))
    } else {
        seq![s]
    }
}

/// Exact string comparison, specified over the character views.
pub fn str_eq(a: &str, b: &str) -> (r: bool)
    ensures
        r == (a@ == b@),
{
    let alen = a.unicode_len();
    let blen = b.unicode_len();
    if alen != blen {
        return false;
    }
    let mut i: usize = 0;
    while i < alen
        invariant
            alen == a@.len(),
            alen == b@.len(),
            i <= alen,
            forall|j: int| 0 <= j < i ==> a@[j] == b@[j],
        decreases alen - i,
    {
        if a.get_char(i) != b.get_char(i) {
            return false;
        }
        i += 1;
    }
    proof {
        assert(a@ =~= b@);
    }
    true
}

/// Whether `c` is one of the blank characters trimmed from queries.
pub fn is_space_char(c: char) -> (r: bool)
    ensures
        r == is_space(c),
{
    c == ' ' || c == '\t' || c == '\n' || c == '\r'
}

/// `s` with leading and trailing blank characters removed.
pub fn trim_spaces<'a>(s: &'a str) -> (r: &'a str)
    ensures
        r@ == trim_spec(s@, space_pred()),
{
    let ghost p = space_pred();
    let len = s.unicode_len();
    let mut start: usize = 0;
    while start < len && is_space_char(s.get_char(start))
        invariant
            len == s@.len(),
            0 <= start <= len,
            forall|k: int| 0 <= k < start ==> is_space(s@[k]),
        decreases len - start,
    {
        start += 1;
    }
    proof {
        lemma_trim_start_skip(s@, p, start as int);
    }
    let ghost t = s@.skip(start as int);
    let mut end: usize = len;
    while end > start && is_space_char(s.get_char(end - 1))
        invariant
            len == s@.len(),
            0 <= start <= end <= len,
            forall|k: int| end <= k < len ==> is_space(s@[k]),
        decreases end,
    {
        end -= 1;
    }
    let r = s.substring_char(start, end);
    proof {
        assert(forall|k: int| #![trigger t[k]] end - start <= k < t.len() ==> p(t[k]));
        lemma_trim_end_take(t, p, end - start);
        assert(t.take(end - start) =~= s@.subrange(start as int, end as int));
    }
    r
}

/// `s` with leading and trailing `/` characters removed.
pub fn trim_slashes<'a>(s: &'a str) -> (r: &'a str)
    ensures
        r@ == trim_spec(s@, slash_pred()),
{
    let ghost p = slash_pred();
    let len = s.unicode_len();
    let mut start: usize = 0;
    while start < len && s.get_char(start) == '/'
        invariant
            len == s@.len(),
            0 <= start <= len,
            forall|k: int| 0 <= k < start ==> s@[k] == '/',
        decreases len - start,
    {
        start += 1;
    }
    proof {
        lemma_trim_start_skip(s@, p, start as int);
    }
    let ghost t = s@.skip(start as int);
    let mut end: usize = len;
    while end > start && s.get_char(end - 1) == '/'
        invariant
            len == s@.len(),
            0 <= start <= end <= len,
            forall|k: int| end <= k < len ==> s@[k] == '/',
        decreases end,
    {
        end -= 1;
    }
    let r = s.substring_char(start, end);
    proof {
        assert(forall|k: int| #![trigger t[k]] end - start <= k < t.len() ==> p(t[k]));
        lemma_trim_end_take(t, p, end - start);
        assert(t.take(end - start) =~= s@.subrange(start as int, end as int));
    }
    r
}

/// The first occurrence of `c` at or after position `from`.
pub fn find_char_exec(s: &str, c: char, from: usize) -> (r: Option<usize>)
    requires
        from <= s@.len(),
    ensures
        match r {
            Some(j) => from <= j < s@.len() && s@[j as int] == c && (forall|k: int|
                from <= k < j ==> s@[k] != c),
            None => forall|k: int| from <= k < s@.len() ==> s@[k] != c,
        },
{
    let len = s.unicode_len();
    let mut i: usize = from;
    while i < len
        invariant
            len == s@.len(),
            from <= i <= len,
            forall|k: int| from <= k < i ==> s@[k] != c,
        decreases len - i,
    {
        if s.get_char(i) == c {
            return Some(i);
        }
        i += 1;
    }
    None
}

/// The leaf of a slash-separated name: the part after the final `/`.
pub fn leaf_of(s: &str) -> (r: &str)
    ensures
        r@ == leaf_spec(s@),
{
    let len = s.unicode_len();
    let mut i: usize = len;
    while i > 0
        invariant
            len == s@.len(),
            0 <= i <= len,
            forall|m: int| i <= m < len ==> s@[m] != '/',
        decreases i,
    {
        if s.get_char(i - 1) == '/' {
            proof {
                lemma_leaf_after_slash(s@, i - 1);
            }
            return s.substring_char(i, len);
        }
        i -= 1;
    }
    proof {
        lemma_leaf_no_slash(s@);
        assert(s@.subrange(0, len as int) =~= s@);
    }
    s.substring_char(0, len)
}

/// Whether some string of `v` has the view `s`.
pub fn vec_contains_string(v: &Vec<String>, s: &String) -> (r: bool)
    ensures
        r == seq_views(v@).contains(s@),
{
    let n = v.len();
    let mut i: usize = 0;
    while i < n
        invariant
            n == v@.len(),
            i <= n,
            forall|j: int| 0 <= j < i ==> seq_views(v@)[j] != s@,
        decreases n - i,
    {
        if str_eq(v[i].as_str(), s.as_str()) {
            proof {
                assert(seq_views(v@)[i as int] == s@);
            }
            return true;
        }
        i += 1;
    }
    proof {
        if seq_views(v@).contains(s@) {
            let j = choose|j: int| 0 <= j < seq_views(v@).len() && seq_views(v@)[j] == s@;
            assert(false);
        }
    }
    false
}

/// A copy of a string vector, element by element.
pub fn clone_string_vec(v: &Vec<String>) -> (r: Vec<String>)
    ensures
        seq_views(r@) == seq_views(v@),
{
    let n = v.len();
    let mut out: Vec<String> = Vec::new();
    let mut i: usize = 0;
    proof {
        assert(seq_views(out@) =~= seq_views(v@).take(0));
    }
    while i < n
        invariant
            n == v@.len(),
            i <= n,
            seq_views(out@) == seq_views(v@).take(i as int),
        decreases n - i,
    {
        let ghost before = seq_views(out@);
        out.push(v[i].clone());
        proof {
            assert(seq_views(out@) =~= before.push(seq_views(v@)[i as int]));
            assert(seq_views(out@) =~= seq_views(v@).take(i + 1));
        }
        i += 1;
    }
    proof {
        assert(seq_views(v@).take(n as int) =~= seq_views(v@));
    }
    out
}

/// A dotted key split into its segments, as owned strings.
pub fn split_dots_exec(s: &str) -> (r: Vec<String>)
    ensures
        seq_views(r@) == split_dots(s@),
{
    let len = s.unicode_len();
    let mut segs: Vec<String> = Vec::new();
    let mut start: usize = 0;
    let mut i: usize = 0;
    proof {
        assert(seq_views(segs@) =~= Seq::<Seq<char>>::empty());
        assert(s@.skip(0) =~= s@);
        assert(seq_views(segs@) + split_dots(s@) =~= split_dots(s@));
    }
    while i < len
        invariant
            len == s@.len(),
            0 <= start <= i <= len,
            forall|k: int| start <= k < i ==> s@[k] != '.',
            split_dots(s@) == seq_views(segs@) + split_dots(s@.skip(start as int)),
        decreases len - i,
    {
        if s.get_char(i) == '.' {
            let piece = s.substring_char(start, i);
            let owned = piece.to_owned();
            let ghost prev = segs@;
            segs.push(owned);
            proof {
                let rest = s@.skip(start as int);
                lemma_find_char_from(rest, '.', 0);
                assert(rest[i - start] == '.');
                let j = i - start;
                assert(find_char_from(rest, '.', 0) == Some(j)) by {
                    match find_char_from(rest, '.', 0) {
                        Some(f) => {
                            if f < j {
                                assert(s@[start + f] != '.');
                                assert(rest[f] == s@[start + f]);
                            }
                            if f > j {
                                assert(rest[j] != '.');
                            }
                        },
                        None => {
                            assert(rest[j] != '.');
                        },
                    }
                }
                assert(split_dots(rest) == seq![rest.take(j)] + split_dots(rest.skip(j + 1)));
                assert(rest.take(j) =~= s@.subrange(start as int, i as int));
                assert(rest.skip(j + 1) =~= s@.skip(i + 1));
                assert(seq_views(segs@) =~= seq_views(prev).push(owned@));
                assert(seq_views(segs@) + split_dots(s@.skip(i + 1)) =~= seq_views(prev) + (seq![
                    rest.take(j),
                ] + split_dots(rest.skip(j + 1))));
            }
            start = i + 1;
        }
        i += 1;
    }
    let piece = s.substring_char(start, len);
    let owned = piece.to_owned();
    let ghost prev = segs@;
    segs.push(owned);
    proof {
        let rest = s@.skip(start as int);
        lemma_find_char_from(rest, '.', 0);
        assert(forall|k: int| 0 <= k < rest.len() ==> rest[k] == s@[start + k] && rest[k] != '.');
        assert(split_dots(rest) == seq![rest]);
        assert(rest =~= s@.subrange(start as int, len as int));
        assert(owned@ == rest);
        assert(seq_views(segs@) =~= seq_views(prev).push(owned@));
        assert(seq_views(segs@) =~= split_dots(s@));
    }
    segs
}

} // verus!
